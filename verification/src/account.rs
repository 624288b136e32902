//! The account record, its mathematical view, and its stored form.

use vstd::prelude::*;

verus! {

/// The id of the account that always exists and can never be removed.
pub const DEFAULT_ACCOUNT_ID: &'static str = "default";

/// The avatar colour of an account that names none.
pub const DEFAULT_COLOR: &'static str = "#3584e4";

/// The avatar emoji of an account that names none: a speech balloon.
pub const DEFAULT_EMOJI: &'static str = "\u{1F4AC}";

/// The display name of the account that the first start creates.
pub const DEFAULT_ACCOUNT_NAME: &'static str = "Primary Account";

/// The zoom level of an account that names none, in percent of the natural size.
pub const DEFAULT_ZOOM: u32 = 100;

/// The capabilities that a page may ask for, each remembered per account.
#[derive(Clone, Copy, Debug, PartialEq, Eq, Structural)]
pub enum PermissionKind {
    Notification,
    Microphone,
    Camera,
}

/// Why the registry refused a change.
#[derive(Clone, Copy, Debug, PartialEq, Eq, Structural)]
pub enum AccountError {
    /// An account with this id is already registered.
    DuplicateId,
    /// The default account can be neither removed nor moved.
    ProtectedAccount,
    /// No account has this id.
    NotFound,
}

impl AccountError {
    /// A sentence for the user.
    pub fn message(&self) -> (r: String)
        ensures
            r@ == match *self {
                AccountError::DuplicateId => "Account already exists"@,
                AccountError::ProtectedAccount => "The default account cannot be removed"@,
                AccountError::NotFound => "Account not found"@,
            },
    {
        match self {
            AccountError::DuplicateId => "Account already exists".to_owned(),
            AccountError::ProtectedAccount => "The default account cannot be removed".to_owned(),
            AccountError::NotFound => "Account not found".to_owned(),
        }
    }
}

/// One account of the chat service, as the registry keeps it.
#[derive(Debug)]
pub struct Account {
    /// Unique and stable; never holds a colon.
    pub id: String,
    /// Display name.
    pub name: String,
    /// When the account was added, in seconds since the Unix epoch.
    pub created_at: i64,
    /// Whether this is the account in use.
    pub is_active: bool,
    /// Whether a browsing session of this account was found on disk.
    pub has_session: bool,
    /// Avatar background colour, such as `#3584e4`.
    pub color: String,
    /// Avatar emoji.
    pub emoji: String,
    /// Display order: lower comes first.
    pub order: i32,
    /// Whether a notification arrived that the user has not looked at.
    pub has_unread: bool,
    /// Zoom level in percent of the natural size.
    pub zoom_level: u32,
    pub notification_permission_asked: bool,
    pub notification_permission_granted: bool,
    pub microphone_permission_asked: bool,
    pub microphone_permission_granted: bool,
    pub camera_permission_asked: bool,
    pub camera_permission_granted: bool,
}

/// What an `Account` holds, with each string as its sequence of characters.
pub struct AccountView {
    pub id: Seq<char>,
    pub name: Seq<char>,
    pub created_at: i64,
    pub is_active: bool,
    pub has_session: bool,
    pub color: Seq<char>,
    pub emoji: Seq<char>,
    pub order: i32,
    pub has_unread: bool,
    pub zoom_level: u32,
    pub notification_permission_asked: bool,
    pub notification_permission_granted: bool,
    pub microphone_permission_asked: bool,
    pub microphone_permission_granted: bool,
    pub camera_permission_asked: bool,
    pub camera_permission_granted: bool,
}

impl View for Account {
    type V = AccountView;

    open spec fn view(&self) -> AccountView {
        AccountView {
            id: self.id@,
            name: self.name@,
            created_at: self.created_at,
            is_active: self.is_active,
            has_session: self.has_session,
            color: self.color@,
            emoji: self.emoji@,
            order: self.order,
            has_unread: self.has_unread,
            zoom_level: self.zoom_level,
            notification_permission_asked: self.notification_permission_asked,
            notification_permission_granted: self.notification_permission_granted,
            microphone_permission_asked: self.microphone_permission_asked,
            microphone_permission_granted: self.microphone_permission_granted,
            camera_permission_asked: self.camera_permission_asked,
            camera_permission_granted: self.camera_permission_granted,
        }
    }
}

impl AccountView {
    /// A new account: inactive, without session or unread mark, at the default zoom,
    /// with no permission asked yet.
    pub open spec fn fresh(
        id: Seq<char>,
        name: Seq<char>,
        color: Seq<char>,
        emoji: Seq<char>,
        created_at: i64,
    ) -> AccountView {
        AccountView {
            id,
            name,
            created_at,
            is_active: false,
            has_session: false,
            color,
            emoji,
            order: 0,
            has_unread: false,
            zoom_level: DEFAULT_ZOOM,
            notification_permission_asked: false,
            notification_permission_granted: false,
            microphone_permission_asked: false,
            microphone_permission_granted: false,
            camera_permission_asked: false,
            camera_permission_granted: false,
        }
    }

    /// The `(asked, granted)` pair of one permission kind.
    pub open spec fn permission(self, kind: PermissionKind) -> (bool, bool) {
        match kind {
            PermissionKind::Notification => (
                self.notification_permission_asked,
                self.notification_permission_granted,
            ),
            PermissionKind::Microphone => (
                self.microphone_permission_asked,
                self.microphone_permission_granted,
            ),
            PermissionKind::Camera => (self.camera_permission_asked, self.camera_permission_granted),
        }
    }

    /// This account with the pair of one permission kind replaced.
    pub open spec fn with_permission(self, kind: PermissionKind, asked: bool, granted: bool) -> AccountView {
        match kind {
            PermissionKind::Notification => AccountView {
                notification_permission_asked: asked,
                notification_permission_granted: granted,
                ..self
            },
            PermissionKind::Microphone => AccountView {
                microphone_permission_asked: asked,
                microphone_permission_granted: granted,
                ..self
            },
            PermissionKind::Camera => AccountView {
                camera_permission_asked: asked,
                camera_permission_granted: granted,
                ..self
            },
        }
    }
}

/// The views of a sequence of accounts.
pub open spec fn views(v: Seq<Account>) -> Seq<AccountView> {
    v.map_values(|a: Account| a@)
}

impl Clone for Account {
    fn clone(&self) -> (r: Self)
        ensures
            r@ == self@,
    {
        Account {
            id: self.id.clone(),
            name: self.name.clone(),
            created_at: self.created_at,
            is_active: self.is_active,
            has_session: self.has_session,
            color: self.color.clone(),
            emoji: self.emoji.clone(),
            order: self.order,
            has_unread: self.has_unread,
            zoom_level: self.zoom_level,
            notification_permission_asked: self.notification_permission_asked,
            notification_permission_granted: self.notification_permission_granted,
            microphone_permission_asked: self.microphone_permission_asked,
            microphone_permission_granted: self.microphone_permission_granted,
            camera_permission_asked: self.camera_permission_asked,
            camera_permission_granted: self.camera_permission_granted,
        }
    }
}

/// `std::time::SystemTime`: a reading of the system clock. Nothing is known of what
/// it holds.
#[verifier::external_type_specification]
#[verifier::external_body]
pub struct ExSystemTime(std::time::SystemTime);

/// `std::time::SystemTimeError`: what `SystemTime::duration_since` fails with.
#[verifier::external_type_specification]
#[verifier::external_body]
pub struct ExSystemTimeError(std::time::SystemTimeError);

/// `SystemTime::now` reads the system clock. The clock decides the result, so
/// nothing is claimed of it.
pub assume_specification[ std::time::SystemTime::now ]() -> (now: std::time::SystemTime)
;

/// `SystemTime::duration_since` gives the time that passed since `earlier`, or an
/// error where `earlier` is the later of the two. Nothing is claimed of either.
pub assume_specification[ std::time::SystemTime::duration_since ](
    time: &std::time::SystemTime,
    earlier: std::time::SystemTime,
) -> (elapsed: Result<std::time::Duration, std::time::SystemTimeError>)
;

/// `std::time::UNIX_EPOCH`: the reading of the clock at the start of 1970, UTC.
/// Nothing is claimed of what it holds.
#[verifier::external_body]
fn unix_epoch() -> (epoch: std::time::SystemTime) {
    std::time::UNIX_EPOCH
}

/// `Duration::as_secs` gives the whole seconds of a duration. Nothing is claimed of
/// their number.
pub assume_specification[ std::time::Duration::as_secs ](duration: &std::time::Duration) -> (seconds: u64)
;

/// The time now, in whole seconds since the Unix epoch; 0 where the clock stands
/// before the epoch.
fn unix_seconds_now() -> i64 {
    let now = std::time::SystemTime::now();
    match now.duration_since(unix_epoch()) {
        Ok(elapsed) => {
            let seconds: u64 = elapsed.as_secs();
            #[verifier::truncate]
            (seconds as i64)
        },
        Err(_) => 0,
    }
}

impl Account {
    /// A fresh account created now.
    pub fn new(id: String, name: String, color: String, emoji: String) -> (r: Self)
        ensures
            r@ == AccountView::fresh(id@, name@, color@, emoji@, r.created_at),
    {
        let now: i64 = unix_seconds_now();
        Account::created_at(id, name, color, emoji, now)
    }

    /// A fresh account with the given creation time.
    pub fn created_at(id: String, name: String, color: String, emoji: String, created_at: i64) -> (r: Self)
        ensures
            r@ == AccountView::fresh(id@, name@, color@, emoji@, created_at),
    {
        Account {
            id,
            name,
            created_at,
            is_active: false,
            has_session: false,
            color,
            emoji,
            order: 0,
            has_unread: false,
            zoom_level: DEFAULT_ZOOM,
            notification_permission_asked: false,
            notification_permission_granted: false,
            microphone_permission_asked: false,
            microphone_permission_granted: false,
            camera_permission_asked: false,
            camera_permission_granted: false,
        }
    }

    /// The `(asked, granted)` pair of one permission kind.
    pub fn permission(&self, kind: PermissionKind) -> (r: (bool, bool))
        ensures
            r == self@.permission(kind),
    {
        match kind {
            PermissionKind::Notification => (
                self.notification_permission_asked,
                self.notification_permission_granted,
            ),
            PermissionKind::Microphone => (
                self.microphone_permission_asked,
                self.microphone_permission_granted,
            ),
            PermissionKind::Camera => (self.camera_permission_asked, self.camera_permission_granted),
        }
    }

    /// Replaces the pair of one permission kind.
    pub fn set_permission(&mut self, kind: PermissionKind, asked: bool, granted: bool)
        ensures
            final(self)@ == old(self)@.with_permission(kind, asked, granted),
    {
        match kind {
            PermissionKind::Notification => {
                self.notification_permission_asked = asked;
                self.notification_permission_granted = granted;
            },
            PermissionKind::Microphone => {
                self.microphone_permission_asked = asked;
                self.microphone_permission_granted = granted;
            },
            PermissionKind::Camera => {
                self.camera_permission_asked = asked;
                self.camera_permission_granted = granted;
            },
        }
    }
}

} // verus!
