//! Per-user token limits on hour, day and month windows.
//!
//! Windows are aligned to the epoch: the window of a time starts at the last multiple
//! of its length. A user's counter of each kind belongs to one window at a time.
use vstd::prelude::*;

use crate::names::NameMap;
use crate::numbers::{clamped_i64, u64_to_i64};
use crate::text;

verus! {

/// A kind of window.
#[derive(Clone, Copy, Debug, PartialEq, Eq, Structural)]
pub enum WindowKind {
    Day,
    Hour,
    Month,
}

/// The length of a window, in seconds. A month is thirty days.
pub open spec fn window_secs(kind: WindowKind) -> u64 {
    match kind {
        WindowKind::Day => 86_400,
        WindowKind::Hour => 3_600,
        WindowKind::Month => 2_592_000,
    }
}

/// When the window of a time starts.
pub open spec fn window_start(kind: WindowKind, now: u64) -> int {
    now - now as int % window_secs(kind) as int
}

/// The word for a window in messages.
pub open spec fn window_word(kind: WindowKind) -> Seq<char> {
    match kind {
        WindowKind::Day => "daily"@,
        WindowKind::Hour => "hourly"@,
        WindowKind::Month => "monthly"@,
    }
}

impl WindowKind {
    /// The name under which a window is stored. It is not the word of messages, so that
    /// a change of wording does not move stored rows into a new bucket.
    pub fn as_db_str(self) -> (r: &'static str)
        ensures
            r@ == match self {
                WindowKind::Day => "day"@,
                WindowKind::Hour => "hour"@,
                WindowKind::Month => "month"@,
            },
    {
        match self {
            WindowKind::Day => "day",
            WindowKind::Hour => "hour",
            WindowKind::Month => "month",
        }
    }

    /// The length of the window, in seconds.
    pub fn size_secs(self) -> (r: u64)
        ensures
            r == window_secs(self),
    {
        match self {
            WindowKind::Day => 86_400,
            WindowKind::Hour => 3_600,
            WindowKind::Month => 2_592_000,
        }
    }

    /// The word for the window in messages.
    pub fn to_text(self) -> (r: &'static str)
        ensures
            r@ == window_word(self),
    {
        match self {
            WindowKind::Day => "daily",
            WindowKind::Hour => "hourly",
            WindowKind::Month => "monthly",
        }
    }
}

/// Why a request was refused, or could not be checked.
#[derive(Debug)]
pub enum LimitError {
    Database(String),
    Exceeded { limit: u64, retry_after: u64, used: u64, window: WindowKind },
    InvalidMetadata { key: String, value: String },
    Migrate(String),
}

impl LimitError {
    /// The message of the error.
    pub open spec fn message(self) -> Seq<char> {
        match self {
            LimitError::Database(e) => "rate limit database error: "@ + e@,
            LimitError::Exceeded { limit, retry_after, used, window } => window_word(window)
                + " token limit exceeded: used "@ + text::decimal(used as nat) + "/"@
                + text::decimal(limit as nat) + ", retry after "@ + text::decimal(
                retry_after as nat,
            ) + "s"@,
            LimitError::InvalidMetadata { key, value } => "metadata key '"@ + key@
                + "' must be a non-negative integer, got '"@ + value@ + "'"@,
            LimitError::Migrate(e) => "schema migration failed: "@ + e@,
        }
    }

    /// The message of the error.
    pub fn to_text(&self) -> (r: String)
        ensures
            r@ == self.message(),
    {
        let mut m = String::new();
        match self {
            LimitError::Database(e) => {
                m.append("rate limit database error: ");
                m.append(e);
            },
            LimitError::Exceeded { limit, retry_after, used, window } => {
                m.append(window.to_text());
                m.append(" token limit exceeded: used ");
                m.append(text::format_u64(*used).as_str());
                m.append("/");
                m.append(text::format_u64(*limit).as_str());
                m.append(", retry after ");
                m.append(text::format_u64(*retry_after).as_str());
                m.append("s");
            },
            LimitError::InvalidMetadata { key, value } => {
                m.append("metadata key '");
                m.append(key);
                m.append("' must be a non-negative integer, got '");
                m.append(value);
                m.append("'");
            },
            LimitError::Migrate(e) => {
                m.append("schema migration failed: ");
                m.append(e);
            },
        }
        m
    }
}

/// The caps that a request sets, each on the tokens of one window.
#[derive(Clone, Copy, Debug, PartialEq, Eq, Structural)]
pub struct RequestLimits {
    pub tokens_per_day: Option<u64>,
    pub tokens_per_hour: Option<u64>,
    pub tokens_per_month: Option<u64>,
}

impl Default for RequestLimits {
    fn default() -> (r: Self)
        ensures
            r == no_limits(),
    {
        RequestLimits { tokens_per_day: None, tokens_per_hour: None, tokens_per_month: None }
    }
}

/// No caps.
pub open spec fn no_limits() -> RequestLimits {
    RequestLimits { tokens_per_day: None, tokens_per_hour: None, tokens_per_month: None }
}

/// The value of a metadata key is a number, or the key is absent.
pub open spec fn metadata_ok(metadata: Map<Seq<char>, String>, key: Seq<char>) -> bool {
    metadata.contains_key(key) ==> text::parsed_u64(metadata[key]@) is Some
}

/// The number that a metadata key holds.
pub open spec fn metadata_number(metadata: Map<Seq<char>, String>, key: Seq<char>) -> Option<u64> {
    if metadata.contains_key(key) {
        text::parsed_u64(metadata[key]@)
    } else {
        None
    }
}

/// The limits that metadata sets, or the first key, in the order day, hour and month,
/// whose value is no number.
pub open spec fn limits_from(metadata: Map<Seq<char>, String>) -> Result<RequestLimits, Seq<char>> {
    if !metadata_ok(metadata, "tokens_per_day"@) {
        Err("tokens_per_day"@)
    } else if !metadata_ok(metadata, "tokens_per_hour"@) {
        Err("tokens_per_hour"@)
    } else if !metadata_ok(metadata, "tokens_per_month"@) {
        Err("tokens_per_month"@)
    } else {
        Ok(
            RequestLimits {
                tokens_per_day: metadata_number(metadata, "tokens_per_day"@),
                tokens_per_hour: metadata_number(metadata, "tokens_per_hour"@),
                tokens_per_month: metadata_number(metadata, "tokens_per_month"@),
            },
        )
    }
}

/// The error names a metadata key and its value.
pub open spec fn is_invalid_key(e: LimitError, key: Seq<char>, metadata: Map<Seq<char>, String>) -> bool {
    match e {
        LimitError::InvalidMetadata { key: k, value } => k@ == key && value@ == metadata[key]@,
        _ => false,
    }
}

/// Reads the number of a metadata key.
fn read_limit(metadata: &NameMap<String>, key: &str) -> (r: Result<Option<u64>, LimitError>)
    ensures
        match r {
            Ok(n) => metadata_ok(metadata@, key@) && n == metadata_number(metadata@, key@),
            Err(e) => !metadata_ok(metadata@, key@) && is_invalid_key(e, key@, metadata@),
        },
{
    match metadata.get(key) {
        Some(v) => match text::parse_u64(v.as_str()) {
            Some(n) => Ok(Some(n)),
            None => Err(LimitError::InvalidMetadata { key: key.to_owned(), value: v.clone() }),
        },
        None => Ok(None),
    }
}

impl RequestLimits {
    /// Reads the caps from a request's metadata.
    pub fn from_metadata(metadata: &NameMap<String>) -> (r: Result<Self, LimitError>)
        ensures
            match limits_from(metadata@) {
                Ok(limits) => r is Ok && r->Ok_0 == limits,
                Err(key) => r is Err && is_invalid_key(r->Err_0, key, metadata@),
            },
    {
        let tokens_per_day = match read_limit(metadata, "tokens_per_day") {
            Ok(n) => n,
            Err(e) => {
                return Err(e);
            },
        };
        let tokens_per_hour = match read_limit(metadata, "tokens_per_hour") {
            Ok(n) => n,
            Err(e) => {
                return Err(e);
            },
        };
        let tokens_per_month = match read_limit(metadata, "tokens_per_month") {
            Ok(n) => n,
            Err(e) => {
                return Err(e);
            },
        };
        Ok(RequestLimits { tokens_per_day, tokens_per_hour, tokens_per_month })
    }

    /// Whether there are no caps.
    pub fn is_empty(&self) -> (r: bool)
        ensures
            r == (*self == no_limits()),
    {
        self.tokens_per_day.is_none() && self.tokens_per_hour.is_none()
            && self.tokens_per_month.is_none()
    }

    /// The cap on a kind of window.
    pub open spec fn cap(self, kind: WindowKind) -> Option<u64> {
        match kind {
            WindowKind::Day => self.tokens_per_day,
            WindowKind::Hour => self.tokens_per_hour,
            WindowKind::Month => self.tokens_per_month,
        }
    }
}

/// A stored counter: the tokens of the window that starts at `start`.
#[derive(Clone, Copy, Debug, PartialEq, Eq, Structural)]
pub struct WindowRow {
    pub count: i64,
    pub start: i64,
}

/// The stored counters of one user.
#[derive(Clone, Copy, Debug, PartialEq, Eq, Structural)]
pub struct UserWindows {
    pub day: Option<WindowRow>,
    pub hour: Option<WindowRow>,
    pub month: Option<WindowRow>,
}

/// The tokens that a counter holds for the window that starts at `start`: none where it
/// belongs to another window.
pub open spec fn row_count(row: Option<WindowRow>, start: i64) -> u64 {
    match row {
        Some(r) => if r.start == start && r.count > 0 {
            r.count as u64
        } else {
            0
        },
        None => 0,
    }
}

/// The counter after some tokens are added in the window that starts at `start`: a
/// counter of another window is replaced.
pub open spec fn row_after(row: Option<WindowRow>, start: i64, tokens: u64) -> Option<WindowRow> {
    match row {
        Some(r) => if r.start == start {
            Some(WindowRow { count: (r.count + clamped_i64(tokens as int)) as i64, start })
        } else {
            Some(WindowRow { count: clamped_i64(tokens as int), start })
        },
        None => Some(WindowRow { count: clamped_i64(tokens as int), start }),
    }
}

/// The counter can take some more tokens in the window that starts at `start`.
pub open spec fn row_has_room(row: Option<WindowRow>, start: i64, tokens: u64) -> bool {
    match row {
        Some(r) => r.start == start ==> r.count + clamped_i64(tokens as int) <= i64::MAX,
        None => true,
    }
}

/// Reads a counter.
fn read_row(row: Option<WindowRow>, start: i64) -> (r: u64)
    ensures
        r == row_count(row, start),
{
    match row {
        Some(row) => if row.start == start && row.count > 0 {
            row.count as u64
        } else {
            0
        },
        None => 0,
    }
}

/// Adds tokens to a counter.
fn add_to_row(row: Option<WindowRow>, start: i64, tokens: u64) -> (r: Option<WindowRow>)
    requires
        row_has_room(row, start, tokens),
    ensures
        r == row_after(row, start, tokens),
{
    let more: i64 = u64_to_i64(tokens);
    match row {
        Some(row) if row.start == start => Some(WindowRow { count: row.count + more, start }),
        _ => Some(WindowRow { count: more, start }),
    }
}

/// When the window of a time starts, as it is stored.
fn start_of(kind: WindowKind, now: u64) -> (r: i64)
    ensures
        r == clamped_i64(window_start(kind, now)),
{
    u64_to_i64(now - now % kind.size_secs())
}

/// The outcome of a check against one cap.
pub open spec fn exceeded(kind: WindowKind, cap: u64, used: u64, now: u64) -> LimitError {
    LimitError::Exceeded {
        limit: cap,
        retry_after: (window_start(kind, now) + window_secs(kind) - now) as u64,
        used,
        window: kind,
    }
}

/// The cap on a kind of window is reached.
pub open spec fn reached(windows: UserWindows, limits: RequestLimits, kind: WindowKind, now: u64) -> bool {
    limits.cap(kind) is Some && windows.used(kind, now) >= limits.cap(kind)->0
}

impl UserWindows {
    /// The counter of a kind of window.
    pub open spec fn row(self, kind: WindowKind) -> Option<WindowRow> {
        match kind {
            WindowKind::Day => self.day,
            WindowKind::Hour => self.hour,
            WindowKind::Month => self.month,
        }
    }

    /// The tokens used in the window of a time.
    pub open spec fn used(self, kind: WindowKind, now: u64) -> u64 {
        row_count(self.row(kind), clamped_i64(window_start(kind, now)))
    }

    /// The counters can take some more tokens.
    pub open spec fn has_room(self, tokens: u64, now: u64) -> bool {
        forall|kind: WindowKind|
            row_has_room(#[trigger] self.row(kind), clamped_i64(window_start(kind, now)), tokens)
    }

    /// The counters after some tokens are recorded. None are recorded as none.
    pub open spec fn recorded(self, tokens: u64, now: u64) -> UserWindows {
        if tokens == 0 {
            self
        } else {
            UserWindows {
                day: row_after(
                    self.day,
                    clamped_i64(window_start(WindowKind::Day, now)),
                    tokens,
                ),
                hour: row_after(
                    self.hour,
                    clamped_i64(window_start(WindowKind::Hour, now)),
                    tokens,
                ),
                month: row_after(
                    self.month,
                    clamped_i64(window_start(WindowKind::Month, now)),
                    tokens,
                ),
            }
        }
    }

    /// The first cap, in the order hour, day and month, that is reached.
    pub open spec fn checked(self, limits: RequestLimits, now: u64) -> Result<(), LimitError> {
        if reached(self, limits, WindowKind::Hour, now) {
            Err(
                exceeded(
                    WindowKind::Hour,
                    limits.tokens_per_hour->0,
                    self.used(WindowKind::Hour, now),
                    now,
                ),
            )
        } else if reached(self, limits, WindowKind::Day, now) {
            Err(
                exceeded(
                    WindowKind::Day,
                    limits.tokens_per_day->0,
                    self.used(WindowKind::Day, now),
                    now,
                ),
            )
        } else if reached(self, limits, WindowKind::Month, now) {
            Err(
                exceeded(
                    WindowKind::Month,
                    limits.tokens_per_month->0,
                    self.used(WindowKind::Month, now),
                    now,
                ),
            )
        } else {
            Ok(())
        }
    }

    /// Counters of a user that has used nothing.
    pub fn new() -> (r: Self)
        ensures
            r == fresh_windows(),
    {
        UserWindows { day: None, hour: None, month: None }
    }

    /// The counter of a kind of window.
    fn row_of(&self, kind: WindowKind) -> (r: Option<WindowRow>)
        ensures
            r == self.row(kind),
    {
        match kind {
            WindowKind::Day => self.day,
            WindowKind::Hour => self.hour,
            WindowKind::Month => self.month,
        }
    }

    /// The tokens used in the window of a time.
    pub fn count(&self, kind: WindowKind, now: u64) -> (r: u64)
        ensures
            r == self.used(kind, now),
    {
        read_row(self.row_of(kind), start_of(kind, now))
    }

    /// Whether the counters can take some more tokens.
    pub fn room_for(&self, tokens: u64, now: u64) -> (r: bool)
        ensures
            r == self.has_room(tokens, now),
    {
        let day = row_room(self.day, start_of(WindowKind::Day, now), tokens);
        let hour = row_room(self.hour, start_of(WindowKind::Hour, now), tokens);
        let month = row_room(self.month, start_of(WindowKind::Month, now), tokens);
        proof {
            assert(self.row(WindowKind::Day) == self.day);
            assert(self.row(WindowKind::Hour) == self.hour);
            assert(self.row(WindowKind::Month) == self.month);
        }
        day && hour && month
    }

    /// Adds tokens to every counter. A counter of a window that has passed starts anew.
    pub fn record(&mut self, tokens: u64, now: u64)
        requires
            old(self).has_room(tokens, now),
        ensures
            *final(self) == old(self).recorded(tokens, now),
    {
        if tokens == 0 {
            return;
        }
        proof {
            assert(self.row(WindowKind::Day) == self.day);
            assert(self.row(WindowKind::Hour) == self.hour);
            assert(self.row(WindowKind::Month) == self.month);
        }
        let hour = add_to_row(self.hour, start_of(WindowKind::Hour, now), tokens);
        let day = add_to_row(self.day, start_of(WindowKind::Day, now), tokens);
        let month = add_to_row(self.month, start_of(WindowKind::Month, now), tokens);
        self.hour = hour;
        self.day = day;
        self.month = month;
    }

    /// Checks one cap.
    fn check_cap(&self, cap: Option<u64>, kind: WindowKind, now: u64) -> (r: Result<
        (),
        LimitError,
    >)
        ensures
            r == if cap is Some && self.used(kind, now) >= cap->0 {
                Err::<(), _>(exceeded(kind, cap->0, self.used(kind, now), now))
            } else {
                Ok(())
            },
    {
        if let Some(cap) = cap {
            let used = self.count(kind, now);
            if used >= cap {
                let size: u64 = kind.size_secs();
                let passed: u64 = now % size;
                return Err(
                    LimitError::Exceeded { limit: cap, retry_after: size - passed, used, window: kind },
                );
            }
        }
        Ok(())
    }

    /// Refuses the request if a cap has been reached in the current window.
    pub fn check(&self, limits: RequestLimits, now: u64) -> (r: Result<(), LimitError>)
        ensures
            r == self.checked(limits, now),
    {
        match self.check_cap(limits.tokens_per_hour, WindowKind::Hour, now) {
            Ok(_) => {},
            Err(e) => {
                return Err(e);
            },
        }
        match self.check_cap(limits.tokens_per_day, WindowKind::Day, now) {
            Ok(_) => {},
            Err(e) => {
                return Err(e);
            },
        }
        self.check_cap(limits.tokens_per_month, WindowKind::Month, now)
    }
}

/// Counters of a user that has used nothing.
pub open spec fn fresh_windows() -> UserWindows {
    UserWindows { day: None, hour: None, month: None }
}

/// Whether a counter can take some more tokens.
fn row_room(row: Option<WindowRow>, start: i64, tokens: u64) -> (r: bool)
    ensures
        r == row_has_room(row, start, tokens),
{
    match row {
        Some(row) => row.start != start || row.count <= 0 || u64_to_i64(tokens) <= i64::MAX - row.count,
        None => true,
    }
}

/// A request for a check: who pays, and the caps.
#[derive(Clone, Copy, Debug)]
pub struct CheckRequest<'a> {
    pub limits: RequestLimits,
    pub user: &'a str,
}

/// A record of usage: who pays, and the tokens just spent.
#[derive(Clone, Copy, Debug)]
pub struct RecordUsage<'a> {
    pub tokens: u64,
    pub user: &'a str,
}

/// The counters of all users.
pub struct Tracker {
    users: NameMap<UserWindows>,
}

impl View for Tracker {
    type V = Map<Seq<char>, UserWindows>;

    closed spec fn view(&self) -> Map<Seq<char>, UserWindows> {
        self.users@
    }
}

/// The counters of a user.
pub open spec fn windows_of(users: Map<Seq<char>, UserWindows>, user: Seq<char>) -> UserWindows {
    if users.contains_key(user) {
        users[user]
    } else {
        fresh_windows()
    }
}

impl Tracker {
    /// A tracker that has recorded nothing.
    pub fn new() -> (r: Self)
        ensures
            r@ == Map::<Seq<char>, UserWindows>::empty(),
    {
        Tracker { users: NameMap::new() }
    }

    /// Puts stored counters of a user in place.
    pub fn restore(&mut self, user: String, windows: UserWindows)
        ensures
            final(self)@ == old(self)@.insert(user@, windows),
    {
        self.users.insert(user, windows);
    }

    /// The counters of a user.
    pub fn windows(&self, user: &str) -> (r: UserWindows)
        ensures
            r == windows_of(self@, user@),
    {
        match self.users.get(user) {
            Some(w) => *w,
            None => UserWindows::new(),
        }
    }

    /// Refuses the request if a cap has been reached in the current window.
    pub fn check(&self, request: CheckRequest, now: u64) -> (r: Result<(), LimitError>)
        ensures
            r == windows_of(self@, request.user@).checked(request.limits, now),
    {
        if request.limits.is_empty() {
            return Ok(());
        }
        self.windows(request.user).check(request.limits, now)
    }

    /// Adds the tokens to every counter of the user.
    pub fn record(&mut self, usage: RecordUsage, now: u64)
        requires
            windows_of(old(self)@, usage.user@).has_room(usage.tokens, now),
        ensures
            final(self)@ == if usage.tokens == 0 {
                old(self)@
            } else {
                old(self)@.insert(
                    usage.user@,
                    windows_of(old(self)@, usage.user@).recorded(usage.tokens, now),
                )
            },
    {
        if usage.tokens == 0 {
            return;
        }
        let mut windows = self.windows(usage.user);
        windows.record(usage.tokens, now);
        self.users.insert(usage.user.to_owned(), windows);
    }
}

/// Each cap that is read is the number under its own key, and absent where the key is:
/// no key sets the cap of another window.
pub proof fn law_caps_come_from_their_keys(metadata: Map<Seq<char>, String>)
    ensures
        limits_from(metadata) matches Ok(limits) ==> {
            &&& limits.cap(WindowKind::Day) == limits.tokens_per_day
            &&& limits.cap(WindowKind::Hour) == limits.tokens_per_hour
            &&& limits.cap(WindowKind::Month) == limits.tokens_per_month
            &&& limits.tokens_per_day is Some <==> metadata.contains_key("tokens_per_day"@)
            &&& limits.tokens_per_hour is Some <==> metadata.contains_key("tokens_per_hour"@)
            &&& limits.tokens_per_month is Some <==> metadata.contains_key("tokens_per_month"@)
            &&& metadata.contains_key("tokens_per_day"@) ==> limits.tokens_per_day
                == text::parsed_u64(metadata["tokens_per_day"@]@)
            &&& metadata.contains_key("tokens_per_hour"@) ==> limits.tokens_per_hour
                == text::parsed_u64(metadata["tokens_per_hour"@]@)
            &&& metadata.contains_key("tokens_per_month"@) ==> limits.tokens_per_month
                == text::parsed_u64(metadata["tokens_per_month"@]@)
        },
{
}

/// A cap that is written out is read back, whichever window it is for, and caps that
/// window alone where no other key is there.
pub proof fn law_written_cap_is_read(metadata: Map<Seq<char>, String>, kind: WindowKind, cap: u64)
    requires
        ({
            let key = match kind {
                WindowKind::Day => "tokens_per_day"@,
                WindowKind::Hour => "tokens_per_hour"@,
                WindowKind::Month => "tokens_per_month"@,
            };
            &&& metadata.contains_key(key)
            &&& metadata[key]@ == text::decimal(cap as nat)
            &&& metadata.dom() == set![key]
        }),
    ensures
        limits_from(metadata) matches Ok(limits) && {
            &&& limits.tokens_per_day == if kind == WindowKind::Day {
                Some(cap)
            } else {
                None
            }
            &&& limits.tokens_per_hour == if kind == WindowKind::Hour {
                Some(cap)
            } else {
                None
            }
            &&& limits.tokens_per_month == if kind == WindowKind::Month {
                Some(cap)
            } else {
                None
            }
        },
{
    text::lemma_decimal_round_trip(cap);
    reveal_strlit("tokens_per_day");
    reveal_strlit("tokens_per_hour");
    reveal_strlit("tokens_per_month");
    assert("tokens_per_day"@.len() == 14);
    assert("tokens_per_hour"@.len() == 15);
    assert("tokens_per_month"@.len() == 16);
    assert(metadata.dom().contains("tokens_per_day"@) <==> kind == WindowKind::Day);
    assert(metadata.dom().contains("tokens_per_hour"@) <==> kind == WindowKind::Hour);
    assert(metadata.dom().contains("tokens_per_month"@) <==> kind == WindowKind::Month);
}

/// Other keys of the metadata set no cap and spoil none.
pub proof fn law_other_keys_do_not_matter(
    metadata: Map<Seq<char>, String>,
    key: Seq<char>,
    value: String,
)
    requires
        key != "tokens_per_day"@,
        key != "tokens_per_hour"@,
        key != "tokens_per_month"@,
    ensures
        limits_from(metadata.insert(key, value)) == limits_from(metadata),
        limits_from(metadata.remove(key)) == limits_from(metadata),
{
}

/// The limits are refused exactly when some key of theirs holds no number, and the key that
/// is named is one that does not.
pub proof fn law_spoiled_cap_is_refused(metadata: Map<Seq<char>, String>)
    ensures
        limits_from(metadata) is Err <==> exists|kind: WindowKind|
            {
                let key = match kind {
                    WindowKind::Day => "tokens_per_day"@,
                    WindowKind::Hour => "tokens_per_hour"@,
                    WindowKind::Month => "tokens_per_month"@,
                };
                metadata.contains_key(key) && text::parsed_u64(metadata[key]@) is None
                    && #[trigger] window_secs(kind) > 0
            },
        limits_from(metadata) matches Err(key) ==> {
            &&& key == "tokens_per_day"@ || key == "tokens_per_hour"@ || key
                == "tokens_per_month"@
            &&& metadata.contains_key(key)
            &&& text::parsed_u64(metadata[key]@) is None
        },
{
    assert(window_secs(WindowKind::Day) > 0);
    assert(window_secs(WindowKind::Hour) > 0);
    assert(window_secs(WindowKind::Month) > 0);
}

/// A window starts at a multiple of its length, at the last one that has come; an hour is
/// 3600 seconds, a day 24 hours, and a month 30 days.
pub proof fn law_windows_are_aligned(kind: WindowKind, now: u64)
    ensures
        window_start(kind, now) % (window_secs(kind) as int) == 0,
        window_start(kind, now) <= now < window_start(kind, now) + window_secs(kind),
        window_secs(WindowKind::Hour) == 60 * 60,
        window_secs(WindowKind::Day) == 24 * window_secs(WindowKind::Hour),
        window_secs(WindowKind::Month) == 30 * window_secs(WindowKind::Day),
{
    let size = window_secs(kind) as int;
    let n = now as int;
    vstd::arithmetic::div_mod::lemma_fundamental_div_mod(n, size);
    vstd::arithmetic::div_mod::lemma_mod_multiples_basic(n / size, size);
    assert(size * (n / size) == (n / size) * size) by (nonlinear_arith);
}

/// The first reached cap is the one that is told, the hour's before the day's and the
/// day's before the month's.
pub proof fn law_shortest_window_is_told_first(
    windows: UserWindows,
    limits: RequestLimits,
    kind: WindowKind,
    now: u64,
)
    requires
        limits.cap(kind) is Some,
        windows.used(kind, now) >= limits.cap(kind)->0,
    ensures
        windows.checked(limits, now) matches Err(
            LimitError::Exceeded { limit, retry_after, used, window },
        ) && window_secs(window) <= window_secs(kind),
{
}

/// What is recorded counts in every window alike, and recording nothing changes nothing.
pub proof fn law_every_window_counts(windows: UserWindows, tokens: u64, now: u64)
    requires
        windows.has_room(tokens, now),
    ensures
        tokens == 0 ==> windows.recorded(tokens, now) == windows,
        tokens > 0 ==> forall|kind: WindowKind|
            #[trigger] windows.recorded(tokens, now).row(kind) matches Some(after) && {
                let start = clamped_i64(window_start(kind, now));
                &&& after.start == start
                &&& after.count == clamped_i64(tokens as int) + match windows.row(kind) {
                    Some(before) => if before.start == start {
                        before.count as int
                    } else {
                        0
                    },
                    None => 0,
                }
            },
{
    assert forall|kind: WindowKind| tokens > 0 implies #[trigger] windows.recorded(
        tokens,
        now,
    ).row(kind) matches Some(after) && {
        let start = clamped_i64(window_start(kind, now));
        &&& after.start == start
        &&& after.count == clamped_i64(tokens as int) + match windows.row(kind) {
            Some(before) => if before.start == start {
                before.count as int
            } else {
                0
            },
            None => 0,
        }
    } by {
        assert(row_has_room(windows.row(kind), clamped_i64(window_start(kind, now)), tokens));
    }
}

/// Without caps every request passes, whatever was recorded.
pub proof fn law_no_limits_always_pass(windows: UserWindows, now: u64)
    ensures
        windows.checked(no_limits(), now) is Ok,
{
}

/// A refused request is told to come back when the window ends: after at least one
/// second, and at most a whole window.
pub proof fn law_retry_after_is_window_end(windows: UserWindows, limits: RequestLimits, now: u64)
    requires
        windows.checked(limits, now) is Err,
    ensures
        windows.checked(limits, now) matches Err(
            LimitError::Exceeded { limit, retry_after, used, window },
        ) && {
            &&& limits.cap(window) == Some(limit)
            &&& used == windows.used(window, now)
            &&& used >= limit
            &&& 1 <= retry_after <= window_secs(window)
            &&& (now + retry_after) as int % window_secs(window) as int == 0
        },
{
    let kind = if reached(windows, limits, WindowKind::Hour, now) {
        WindowKind::Hour
    } else if reached(windows, limits, WindowKind::Day, now) {
        WindowKind::Day
    } else {
        WindowKind::Month
    };
    let size = window_secs(kind) as int;
    let n = now as int;
    assert(now + (window_start(kind, now) + size - now) == (n / size + 1) * size) by {
        vstd::arithmetic::div_mod::lemma_fundamental_div_mod(n, size);
        assert((n / size + 1) * size == size * (n / size) + size) by (nonlinear_arith);
    }
    vstd::arithmetic::div_mod::lemma_mod_multiples_basic(n / size + 1, size);
}

/// Recorded tokens count in the window in which they were recorded, on top of what it
/// held.
pub proof fn law_recorded_tokens_count(
    windows: UserWindows,
    kind: WindowKind,
    tokens: u64,
    made: u64,
    now: u64,
)
    requires
        windows.has_room(tokens, made),
        tokens <= i64::MAX,
        window_start(kind, made) == window_start(kind, now),
        windows.row(kind) matches Some(r) ==> r.count >= 0,
    ensures
        windows.recorded(tokens, made).used(kind, now) == windows.used(kind, made) + tokens,
{
    assert(row_has_room(windows.row(kind), clamped_i64(window_start(kind, made)), tokens));
}

/// A window that has passed counts for nothing in the next.
pub proof fn law_passed_window_is_forgotten(
    windows: UserWindows,
    kind: WindowKind,
    tokens: u64,
    made: u64,
    now: u64,
)
    requires
        tokens > 0,
        clamped_i64(window_start(kind, made)) != clamped_i64(window_start(kind, now)),
    ensures
        windows.recorded(tokens, made).used(kind, now) == 0,
{
}

/// What one user records does not touch another.
pub proof fn law_users_are_isolated(
    users: Map<Seq<char>, UserWindows>,
    spender: Seq<char>,
    other: Seq<char>,
    tokens: u64,
    made: u64,
    limits: RequestLimits,
    now: u64,
)
    requires
        spender != other,
    ensures
        windows_of(
            users.insert(spender, windows_of(users, spender).recorded(tokens, made)),
            other,
        ).checked(limits, now) == windows_of(users, other).checked(limits, now),
{
}

/// A request passes exactly while every cap is above what its window holds.
pub proof fn law_passes_below_every_cap(windows: UserWindows, limits: RequestLimits, now: u64)
    ensures
        windows.checked(limits, now) is Ok <==> forall|kind: WindowKind|
            #[trigger] limits.cap(kind) is Some ==> windows.used(kind, now) < limits.cap(kind)->0,
{
    assert(limits.cap(WindowKind::Hour) == limits.tokens_per_hour);
    assert(limits.cap(WindowKind::Day) == limits.tokens_per_day);
    assert(limits.cap(WindowKind::Month) == limits.tokens_per_month);
}

/// A refusal tells which window it is about, the tokens used, the cap, and when to come
/// back; a key that holds no number is told with what it holds.
pub proof fn law_refusal_tells_the_numbers(e: LimitError)
    ensures
        match e {
            LimitError::Exceeded { limit, retry_after, used, window } => {
                let said = e.message();
                &&& text::starts_with_text(said, window_word(window))
                &&& text::contains_text(
                    said,
                    "used "@ + text::decimal(used as nat) + "/"@ + text::decimal(limit as nat),
                )
                &&& text::ends_with_text(
                    said,
                    "retry after "@ + text::decimal(retry_after as nat) + "s"@,
                )
            },
            LimitError::InvalidMetadata { key, value } => text::contains_text(e.message(), key@)
                && text::contains_text(e.message(), value@),
            LimitError::Database(why) | LimitError::Migrate(why) => text::ends_with_text(
                e.message(),
                why@,
            ),
        },
        window_word(WindowKind::Day) == "daily"@,
        window_word(WindowKind::Hour) == "hourly"@,
        window_word(WindowKind::Month) == "monthly"@,
{
    let none = Seq::<char>::empty();
    match e {
        LimitError::Exceeded { limit, retry_after, used, window } => {
            let said = e.message();
            let word = window_word(window);
            let u = text::decimal(used as nat);
            let l = text::decimal(limit as nat);
            let r = text::decimal(retry_after as nat);
            reveal_strlit(" token limit exceeded: used ");
            reveal_strlit("used ");
            reveal_strlit(", retry after ");
            reveal_strlit("retry after ");
            let share = "used "@ + u + "/"@ + l;
            let wait = "retry after "@ + r + "s"@;
            assert(said.take(word.len() as int) =~= word);
            let lead = word + " token limit exceeded: "@;
            reveal_strlit(" token limit exceeded: ");
            let tail = ", retry after "@ + r + "s"@;
            assert(word + " token limit exceeded: used "@ =~= lead + "used "@);
            assert(said =~= lead + share + tail);
            text::lemma_says_one(lead, share, tail);
            assert(said.skip(said.len() - wait.len()) =~= wait);
        },
        LimitError::InvalidMetadata { key, value } => {
            text::lemma_says_two(
                "metadata key '"@,
                key@,
                "' must be a non-negative integer, got '"@,
                value@,
                "'"@,
            );
        },
        LimitError::Database(why) => {
            text::lemma_says_one("rate limit database error: "@, why@, none);
        },
        LimitError::Migrate(why) => {
            text::lemma_says_one("schema migration failed: "@, why@, none);
        },
    }
}

/// A user has the counters that were kept for them, and one of whom nothing was kept has
/// used nothing.
pub proof fn law_users_have_their_own_counters(
    users: Map<Seq<char>, UserWindows>,
    user: Seq<char>,
    windows: UserWindows,
    kind: WindowKind,
    now: u64,
)
    ensures
        windows_of(users.insert(user, windows), user) == windows,
        !users.contains_key(user) ==> windows_of(users, user).used(kind, now) == 0,
        users.contains_key(user) ==> windows_of(users, user) == users[user],
        fresh_windows().used(kind, now) == 0,
        fresh_windows().has_room(u64::MAX, now),
        no_limits().cap(kind) is None,
{
}

/// A counter that has tokens for another window, or none, counts for nothing; one for this
/// window counts what it holds.
pub proof fn law_counter_counts_for_its_window(windows: UserWindows, kind: WindowKind, now: u64)
    ensures
        match windows.row(kind) {
            Some(row) => windows.used(kind, now) == if row.start == clamped_i64(
                window_start(kind, now),
            ) && row.count >= 0 {
                row.count as int
            } else {
                0
            },
            None => windows.used(kind, now) == 0,
        },
        windows.row(WindowKind::Day) == windows.day,
        windows.row(WindowKind::Hour) == windows.hour,
        windows.row(WindowKind::Month) == windows.month,
{
}

/// A key that holds no number is reported with what it holds.
pub proof fn law_spoiled_key_is_reported(
    e: LimitError,
    key: Seq<char>,
    metadata: Map<Seq<char>, String>,
)
    requires
        is_invalid_key(e, key, metadata),
    ensures
        e matches LimitError::InvalidMetadata { key: k, value } && k@ == key && value@
            == metadata[key]@,
{
}

} // verus!
