//! The bounded transport log and the bounded notification log, with the
//! entry and snapshot types they hand out.
use vstd::prelude::*;
use crate::json::{Json, JsonValue, model_items, lemma_model_items};
use crate::types::{opt_view, opt_as_str, clone_opt_string, clone_strings, views};

verus! {

/// The wall-clock time of a log entry.
#[verifier::external_type_specification]
#[verifier::external_body]
pub struct ExSystemTime(std::time::SystemTime);

/// Reads the system clock (`SystemTime::now`). Nothing is stated of the
/// result: it depends on the clock.
#[verifier::external_body]
pub(crate) fn system_time_now() -> std::time::SystemTime {
    std::time::SystemTime::now()
}

/// Direction of a transport-log entry.
#[derive(Debug, Clone, Copy, PartialEq, Eq, Structural)]
pub enum LspLogDirection {
    Incoming,
    Outgoing,
    Event,
}

impl LspLogDirection {
    pub open spec fn label_spec(self) -> Seq<char> {
        match self {
            LspLogDirection::Incoming => "IN"@,
            LspLogDirection::Outgoing => "OUT"@,
            LspLogDirection::Event => "EVENT"@,
        }
    }

    /// Short label shown in the transport log view.
    pub fn label(self) -> (r: &'static str)
        ensures
            r@ == self.label_spec(),
    {
        match self {
            LspLogDirection::Incoming => "IN",
            LspLogDirection::Outgoing => "OUT",
            LspLogDirection::Event => "EVENT",
        }
    }
}

/// One transport-log line.
#[derive(Debug, PartialEq, Eq)]
pub struct LspLogEntry {
    pub timestamp: std::time::SystemTime,
    pub server_id: String,
    pub direction: LspLogDirection,
    pub body: String,
}

impl LspLogEntry {
    /// A new entry stamped with the current time (the clock's reading, of
    /// which nothing is known here).
    pub fn new(direction: LspLogDirection, server_id: &str, body: &str) -> (r: Self)
        ensures
            r.direction == direction,
            r.server_id@ == server_id@,
            r.body@ == body@,
    {
        LspLogEntry::with_timestamp(system_time_now(), direction, server_id, body)
    }

    /// A new entry stamped with the given time.
    pub fn with_timestamp(
        timestamp: std::time::SystemTime,
        direction: LspLogDirection,
        server_id: &str,
        body: &str,
    ) -> (r: Self)
        ensures
            r.timestamp == timestamp,
            r.direction == direction,
            r.server_id@ == server_id@,
            r.body@ == body@,
    {
        LspLogEntry { timestamp, server_id: server_id.to_owned(), direction, body: body.to_owned() }
    }

    pub fn timestamp(&self) -> (r: std::time::SystemTime)
        ensures
            r == self.timestamp,
    {
        self.timestamp
    }

    pub fn server_id(&self) -> (r: &str)
        ensures
            r@ == self.server_id@,
    {
        self.server_id.as_str()
    }

    pub fn direction(&self) -> (r: LspLogDirection)
        ensures
            r == self.direction,
    {
        self.direction
    }

    pub fn body(&self) -> (r: &str)
        ensures
            r@ == self.body@,
    {
        self.body.as_str()
    }
}

impl Clone for LspLogEntry {
    fn clone(&self) -> (r: Self)
        ensures
            r == *self,
    {
        LspLogEntry {
            timestamp: self.timestamp,
            server_id: self.server_id.clone(),
            direction: self.direction,
            body: self.body.clone(),
        }
    }
}

/// A copy of the transport log at one revision.
#[derive(Debug, PartialEq, Eq)]
pub struct LspLogSnapshot {
    pub revision: u64,
    pub entries: Vec<LspLogEntry>,
}

impl LspLogSnapshot {
    /// The snapshot of a log that recorded nothing.
    pub fn empty() -> (r: Self)
        ensures
            r.revision == 0,
            r.entries@.len() == 0,
    {
        LspLogSnapshot { revision: 0, entries: Vec::new() }
    }

    pub fn revision(&self) -> (r: u64)
        ensures
            r == self.revision,
    {
        self.revision
    }

    pub fn entries(&self) -> (r: &[LspLogEntry])
        ensures
            r@ == self.entries@,
    {
        self.entries.as_slice()
    }
}

/// Severity of a notification shown to the user.
#[derive(Debug, Clone, Copy, PartialEq, Eq, Structural)]
pub enum LspNotificationLevel {
    Info,
    Success,
    Warning,
    Error,
}

/// Progress attached to a notification.
#[derive(Debug, Clone, Copy, PartialEq, Eq, Structural)]
pub struct LspNotificationProgress {
    pub percentage: Option<u32>,
}

impl LspNotificationProgress {
    pub fn new(percentage: Option<u32>) -> (r: Self)
        ensures
            r.percentage == percentage,
    {
        LspNotificationProgress { percentage }
    }

    /// The latest reported completion percentage.
    pub fn percentage(self) -> (r: Option<u32>)
        ensures
            r == self.percentage,
    {
        self.percentage
    }
}

/// Action the user can take from a notification.
#[derive(Debug, PartialEq, Eq)]
pub enum LspNotificationAction {
    /// Starts Copilot device sign-in for the emitting session.
    CopilotSignIn,
    /// Opens the URL in a browser popup.
    OpenBrowserPopup { url: String },
}

impl Clone for LspNotificationAction {
    fn clone(&self) -> (r: Self)
        ensures
            r == *self,
    {
        match self {
            LspNotificationAction::CopilotSignIn => LspNotificationAction::CopilotSignIn,
            LspNotificationAction::OpenBrowserPopup { url } => LspNotificationAction::OpenBrowserPopup {
                url: url.clone(),
            },
        }
    }
}

/// A command a server asks the client to run.
#[derive(Debug, PartialEq, Eq)]
pub struct LspServerCommand {
    pub title: String,
    pub command: String,
    pub arguments: Vec<JsonValue>,
}

impl LspServerCommand {
    pub fn new(title: String, command: String, arguments: Vec<JsonValue>) -> (r: Self)
        ensures
            r.title == title,
            r.command == command,
            r.arguments == arguments,
    {
        LspServerCommand { title, command, arguments }
    }

    pub fn title(&self) -> (r: &str)
        ensures
            r@ == self.title@,
    {
        self.title.as_str()
    }

    pub fn command(&self) -> (r: &str)
        ensures
            r@ == self.command@,
    {
        self.command.as_str()
    }

    pub fn arguments(&self) -> (r: &[JsonValue])
        ensures
            r@ == self.arguments@,
    {
        self.arguments.as_slice()
    }
}

/// The device code and follow-up command of a Copilot sign-in.
#[derive(Debug, PartialEq, Eq)]
pub struct CopilotDeviceCodePrompt {
    pub user_code: String,
    pub command: LspServerCommand,
}

impl CopilotDeviceCodePrompt {
    pub fn new(user_code: String, command: LspServerCommand) -> (r: Self)
        ensures
            r.user_code == user_code,
            r.command == command,
    {
        CopilotDeviceCodePrompt { user_code, command }
    }

    pub fn user_code(&self) -> (r: &str)
        ensures
            r@ == self.user_code@,
    {
        self.user_code.as_str()
    }

    pub fn command(&self) -> (r: &LspServerCommand)
        ensures
            *r == self.command,
    {
        &self.command
    }
}

/// A notification for the user, keyed so that later updates replace earlier
/// ones with the same key.
#[derive(Debug, PartialEq, Eq)]
pub struct LspNotification {
    pub key: String,
    pub server_id: String,
    pub root: Option<String>,
    pub level: LspNotificationLevel,
    pub title: String,
    pub body_lines: Vec<String>,
    pub progress: Option<LspNotificationProgress>,
    pub active: bool,
    pub action: Option<LspNotificationAction>,
}

/// View of a notification action.
pub enum ActionModel {
    CopilotSignIn,
    OpenBrowserPopup(Seq<char>),
}

/// View of a notification: its fields with strings as character sequences.
pub struct NotificationModel {
    pub key: Seq<char>,
    pub server_id: Seq<char>,
    pub root: Option<Seq<char>>,
    pub level: LspNotificationLevel,
    pub title: Seq<char>,
    pub body_lines: Seq<Seq<char>>,
    pub progress: Option<LspNotificationProgress>,
    pub active: bool,
    pub action: Option<ActionModel>,
}

impl LspNotificationAction {
    pub open spec fn model(&self) -> ActionModel {
        match self {
            LspNotificationAction::CopilotSignIn => ActionModel::CopilotSignIn,
            LspNotificationAction::OpenBrowserPopup { url } => ActionModel::OpenBrowserPopup(url@),
        }
    }
}

impl LspNotification {
    pub open spec fn model(&self) -> NotificationModel {
        NotificationModel {
            key: self.key@,
            server_id: self.server_id@,
            root: opt_view(self.root),
            level: self.level,
            title: self.title@,
            body_lines: views(self.body_lines@),
            progress: self.progress,
            active: self.active,
            action: match self.action {
                Some(a) => Some(a.model()),
                None => None,
            },
        }
    }
}

/// Two notifications with the same fields (body lines compared by content).
pub open spec fn same_notification(a: LspNotification, b: LspNotification) -> bool {
    &&& a.key == b.key
    &&& a.server_id == b.server_id
    &&& a.root == b.root
    &&& a.level == b.level
    &&& a.title == b.title
    &&& a.body_lines@ == b.body_lines@
    &&& a.progress == b.progress
    &&& a.active == b.active
    &&& a.action == b.action
}

impl LspNotification {
    /// A notification without a session root and without an action.
    pub fn new(
        key: &str,
        server_id: &str,
        level: LspNotificationLevel,
        title: &str,
        body_lines: Vec<String>,
        progress: Option<LspNotificationProgress>,
        active: bool,
    ) -> (r: Self)
        ensures
            r.key@ == key@,
            r.server_id@ == server_id@,
            r.root is None,
            r.level == level,
            r.title@ == title@,
            r.body_lines == body_lines,
            r.progress == progress,
            r.active == active,
            r.action is None,
    {
        LspNotification {
            key: key.to_owned(),
            server_id: server_id.to_owned(),
            root: None,
            level,
            title: title.to_owned(),
            body_lines,
            progress,
            active,
            action: None,
        }
    }

    pub fn key(&self) -> (r: &str)
        ensures
            r@ == self.key@,
    {
        self.key.as_str()
    }

    pub fn server_id(&self) -> (r: &str)
        ensures
            r@ == self.server_id@,
    {
        self.server_id.as_str()
    }

    pub fn root(&self) -> (r: Option<&str>)
        ensures
            match r {
                Some(s) => opt_view(self.root) == Some(s@),
                None => self.root.is_none(),
            },
    {
        opt_as_str(&self.root)
    }

    pub fn level(&self) -> (r: LspNotificationLevel)
        ensures
            r == self.level,
    {
        self.level
    }

    pub fn title(&self) -> (r: &str)
        ensures
            r@ == self.title@,
    {
        self.title.as_str()
    }

    pub fn body_lines(&self) -> (r: &[String])
        ensures
            r@ == self.body_lines@,
    {
        self.body_lines.as_slice()
    }

    pub fn progress(&self) -> (r: Option<LspNotificationProgress>)
        ensures
            r == self.progress,
    {
        self.progress
    }

    pub fn active(&self) -> (r: bool)
        ensures
            r == self.active,
    {
        self.active
    }

    pub fn action(&self) -> (r: Option<&LspNotificationAction>)
        ensures
            match r {
                Some(a) => self.action == Some(*a),
                None => self.action is None,
            },
    {
        match &self.action {
            Some(a) => Some(a),
            None => None,
        }
    }
}

impl Clone for LspNotification {
    fn clone(&self) -> (r: Self)
        ensures
            same_notification(r, *self),
    {
        LspNotification {
            key: self.key.clone(),
            server_id: self.server_id.clone(),
            root: clone_opt_string(&self.root),
            level: self.level,
            title: self.title.clone(),
            body_lines: clone_strings(&self.body_lines),
            progress: self.progress,
            active: self.active,
            action: match &self.action {
                Some(a) => Some(a.clone()),
                None => None,
            },
        }
    }
}

/// A notification together with the log revision at which it was recorded.
#[derive(Debug, PartialEq, Eq)]
pub struct LspNotificationEntry {
    pub revision: u64,
    pub notification: LspNotification,
}

pub open spec fn same_entry(a: LspNotificationEntry, b: LspNotificationEntry) -> bool {
    a.revision == b.revision && same_notification(a.notification, b.notification)
}

impl LspNotificationEntry {
    pub fn revision(&self) -> (r: u64)
        ensures
            r == self.revision,
    {
        self.revision
    }

    pub fn notification(&self) -> (r: &LspNotification)
        ensures
            *r == self.notification,
    {
        &self.notification
    }
}

impl Clone for LspNotificationEntry {
    fn clone(&self) -> (r: Self)
        ensures
            same_entry(r, *self),
    {
        LspNotificationEntry { revision: self.revision, notification: self.notification.clone() }
    }
}

/// A copy of the notification log at one revision.
#[derive(Debug, PartialEq, Eq)]
pub struct LspNotificationSnapshot {
    pub revision: u64,
    pub entries: Vec<LspNotificationEntry>,
}

impl LspNotificationSnapshot {
    /// The snapshot of a log that recorded nothing.
    pub fn empty() -> (r: Self)
        ensures
            r.revision == 0,
            r.entries@.len() == 0,
    {
        LspNotificationSnapshot { revision: 0, entries: Vec::new() }
    }

    pub fn revision(&self) -> (r: u64)
        ensures
            r == self.revision,
    {
        self.revision
    }

    pub fn entries(&self) -> (r: &[LspNotificationEntry])
        ensures
            r@ == self.entries@,
    {
        self.entries.as_slice()
    }
}

/// `n + 1`, saturating at `u64::MAX`.
pub open spec fn saturating_inc(n: u64) -> u64 {
    if n == u64::MAX {
        n
    } else {
        (n + 1) as u64
    }
}

/// The last `max` elements of `s` (all of `s` when it is not longer).
pub open spec fn keep_last<A>(s: Seq<A>, max: nat) -> Seq<A> {
    if s.len() > max {
        s.skip(s.len() - max)
    } else {
        s
    }
}

/// The transport log: the newest `max_entries` entries and the number of
/// entries ever recorded (saturating), which serves as its revision.
#[derive(Debug)]
pub struct LspTransportLog {
    pub revision: u64,
    pub entries: Vec<LspLogEntry>,
    pub max_entries: usize,
}

impl LspTransportLog {
    pub fn new(max_entries: usize) -> (r: Self)
        ensures
            r.revision == 0,
            r.entries@.len() == 0,
            r.max_entries == max_entries,
    {
        LspTransportLog { revision: 0, entries: Vec::new(), max_entries }
    }

    pub fn revision(&self) -> (r: u64)
        ensures
            r == self.revision,
    {
        self.revision
    }

    /// Appends an entry, dropping the oldest entries beyond `max_entries`.
    pub fn record(&mut self, entry: LspLogEntry)
        ensures
            final(self).revision == saturating_inc(old(self).revision),
            final(self).max_entries == old(self).max_entries,
            final(self).entries@ == keep_last(
                old(self).entries@.push(entry),
                old(self).max_entries as nat,
            ),
    {
        self.revision = if self.revision == u64::MAX {
            self.revision
        } else {
            self.revision + 1
        };
        self.entries.push(entry);
        if self.entries.len() > self.max_entries {
            let overflow = self.entries.len() - self.max_entries;
            let kept = self.entries.split_off(overflow);
            self.entries = kept;
        }
    }

    /// A copy of the current revision and entries.
    pub fn snapshot(&self) -> (r: LspLogSnapshot)
        ensures
            r.revision == self.revision,
            r.entries@ == self.entries@,
    {
        let entries = self.entries.clone();
        proof {
            assert(entries@ =~= self.entries@);
        }
        LspLogSnapshot { revision: self.revision, entries }
    }

    /// A snapshot only when the revision moved away from `applied_revision`.
    pub fn snapshot_if_changed(&self, applied_revision: u64) -> (r: Option<LspLogSnapshot>)
        ensures
            r is None <==> applied_revision == self.revision,
            r matches Some(s) ==> s.revision == self.revision && s.entries@ == self.entries@,
    {
        if self.revision != applied_revision {
            Some(self.snapshot())
        } else {
            None
        }
    }
}

/// The notification log: the newest `max_entries` notifications, each tagged
/// with the revision at which it was recorded.
#[derive(Debug)]
pub struct LspNotificationLog {
    pub revision: u64,
    pub entries: Vec<LspNotificationEntry>,
    pub max_entries: usize,
}

impl LspNotificationLog {
    pub fn new(max_entries: usize) -> (r: Self)
        ensures
            r.revision == 0,
            r.entries@.len() == 0,
            r.max_entries == max_entries,
            counted_log(r.entries@, r.revision, r.max_entries as nat),
    {
        LspNotificationLog { revision: 0, entries: Vec::new(), max_entries }
    }

    pub fn revision(&self) -> (r: u64)
        ensures
            r == self.revision,
    {
        self.revision
    }

    /// Appends the notification under the next revision, dropping the oldest
    /// entries beyond `max_entries`.
    pub fn record(&mut self, notification: LspNotification)
        ensures
            final(self).revision == saturating_inc(old(self).revision),
            final(self).max_entries == old(self).max_entries,
            final(self).entries@ == keep_last(
                old(self).entries@.push(
                    LspNotificationEntry { revision: final(self).revision, notification },
                ),
                old(self).max_entries as nat,
            ),
            counted_log(old(self).entries@, old(self).revision, old(self).max_entries as nat) && old(self).revision
                < u64::MAX ==> counted_log(final(self).entries@, final(self).revision, final(self).max_entries as nat),
    {
        proof {
            if counted_log(self.entries@, self.revision, self.max_entries as nat) && self.revision < u64::MAX {
                lemma_counted_step(self.entries@, self.revision, self.max_entries as nat, notification);
            }
        }
        self.revision = if self.revision == u64::MAX {
            self.revision
        } else {
            self.revision + 1
        };
        self.entries.push(LspNotificationEntry { revision: self.revision, notification });
        if self.entries.len() > self.max_entries {
            let overflow = self.entries.len() - self.max_entries;
            let kept = self.entries.split_off(overflow);
            self.entries = kept;
        }
    }

    /// A copy of the current revision and entries.
    pub fn snapshot(&self) -> (r: LspNotificationSnapshot)
        ensures
            r.revision == self.revision,
            r.entries@.len() == self.entries@.len(),
            forall|i: int|
                0 <= i < self.entries@.len() ==> same_entry(#[trigger] r.entries@[i], self.entries@[i]),
    {
        let entries = self.entries.clone();
        LspNotificationSnapshot { revision: self.revision, entries }
    }

    /// A snapshot only when the revision moved away from `applied_revision`.
    pub fn snapshot_if_changed(&self, applied_revision: u64) -> (r: Option<LspNotificationSnapshot>)
        ensures
            r is None <==> applied_revision == self.revision,
            r matches Some(s) ==> s.revision == self.revision && s.entries@.len() == self.entries@.len()
                && forall|i: int| 0 <= i < self.entries@.len() ==> same_entry(#[trigger] s.entries@[i], self.entries@[i]),
    {
        if self.revision != applied_revision {
            Some(self.snapshot())
        } else {
            None
        }
    }
}

/// The revisions of the entries, oldest first, are strictly increasing and
/// none is beyond the log's revision.
pub open spec fn revisions_ordered(entries: Seq<LspNotificationEntry>, revision: u64) -> bool {
    &&& forall|i: int, j: int| 0 <= i < j < entries.len() ==> #[trigger] entries[i].revision < #[trigger] entries[j].revision
    &&& forall|i: int| 0 <= i < entries.len() ==> #[trigger] entries[i].revision <= revision
}

/// A bounded log keeps the newest entries: after appending `e` and cutting
/// to `max`, at most `max` entries remain, they are the last ones of the
/// longer list, and the newest is `e` whenever anything is kept.
pub proof fn law_bounded_log_keeps_newest<A>(s: Seq<A>, e: A, max: nat)
    ensures
        keep_last(s.push(e), max).len() == if s.len() + 1 > max { max } else { s.len() + 1 },
        keep_last(s.push(e), max) == s.push(e).skip(s.push(e).len() - keep_last(s.push(e), max).len()),
        max > 0 ==> keep_last(s.push(e), max).last() == e,
{
    let t = s.push(e);
    if t.len() <= max {
        assert(t.skip(0) =~= t);
    }
}

/// Every state of the notification log keeps its entries' revisions
/// strictly increasing and within the log's revision, as long as the
/// revision has not reached `u64::MAX`: recording one more notification
/// tags it with a revision above all kept ones.
pub proof fn law_notification_revisions_increase(
    entries: Seq<LspNotificationEntry>,
    revision: u64,
    notification: LspNotification,
    max: nat,
)
    requires
        revisions_ordered(entries, revision),
        revision < u64::MAX,
    ensures
        revisions_ordered(
            keep_last(
                entries.push(LspNotificationEntry { revision: saturating_inc(revision), notification }),
                max,
            ),
            saturating_inc(revision),
        ),
{
    let t = entries.push(LspNotificationEntry { revision: saturating_inc(revision), notification });
    assert(revisions_ordered(t, saturating_inc(revision))) by {
        assert forall|i: int, j: int| 0 <= i < j < t.len() implies #[trigger] t[i].revision < #[trigger] t[j].revision by {
            if j == entries.len() {
                assert(t[i] == entries[i]);
            } else {
                assert(t[i] == entries[i] && t[j] == entries[j]);
            }
        }
        assert forall|i: int| 0 <= i < t.len() implies #[trigger] t[i].revision <= saturating_inc(revision) by {
            if i < entries.len() {
                assert(t[i] == entries[i]);
            }
        }
    }
    let k = keep_last(t, max);
    if t.len() > max {
        let d = t.len() - max;
        assert forall|i: int, j: int| 0 <= i < j < k.len() implies #[trigger] k[i].revision < #[trigger] k[j].revision by {
            assert(k[i] == t[i + d] && k[j] == t[j + d]);
        }
        assert forall|i: int| 0 <= i < k.len() implies #[trigger] k[i].revision <= saturating_inc(revision) by {
            assert(k[i] == t[i + d]);
        }
    }
}


/// The log's shape after as many records as its revision: the newest
/// `min(revision, max)` notifications, with consecutive revisions ending at
/// the log's revision.
pub open spec fn counted_log(entries: Seq<LspNotificationEntry>, revision: u64, max: nat) -> bool {
    &&& entries.len() == if (revision as nat) < max { revision as nat } else { max }
    &&& forall|i: int| 0 <= i && i + 1 < entries.len() ==> #[trigger] entries[i + 1].revision == entries[i].revision + 1
    &&& entries.len() > 0 ==> entries.last().revision == revision
}

/// The entries and revision of a log of at most `max` entries after
/// recording `ns`, one by one, into an empty log.
pub open spec fn notification_log_after(max: nat, ns: Seq<LspNotification>) -> (u64, Seq<LspNotificationEntry>)
    decreases ns.len(),
{
    if ns.len() == 0 {
        (0, Seq::empty())
    } else {
        let (rev, entries) = notification_log_after(max, ns.drop_last());
        let next = saturating_inc(rev);
        (next, keep_last(entries.push(LspNotificationEntry { revision: next, notification: ns.last() }), max))
    }
}

proof fn lemma_counted_step(entries: Seq<LspNotificationEntry>, revision: u64, max: nat, n: LspNotification)
    requires
        counted_log(entries, revision, max),
        revision < u64::MAX,
    ensures
        counted_log(
            keep_last(entries.push(LspNotificationEntry { revision: (revision + 1) as u64, notification: n }), max),
            (revision + 1) as u64,
            max,
        ),
{
    let e = LspNotificationEntry { revision: (revision + 1) as u64, notification: n };
    let t = entries.push(e);
    let k = keep_last(t, max);
    assert forall|i: int| 0 <= i && i + 1 < t.len() implies #[trigger] t[i + 1].revision == t[i].revision + 1 by {
        if i + 1 == entries.len() {
            assert(t[i] == entries.last());
        } else {
            assert(t[i] == entries[i] && t[i + 1] == entries[i + 1]);
        }
    }
    if t.len() > max {
        let d = t.len() - max;
        assert forall|i: int| 0 <= i && i + 1 < k.len() implies #[trigger] k[i + 1].revision == k[i].revision + 1 by {
            assert(k[i] == t[i + d] && k[i + 1] == t[(i + d) + 1]);
        }
        if k.len() > 0 {
            assert(k.last() == t.last());
        }
    }
}

/// After `n` records into an empty log that keeps `max` entries (with `n`
/// below `u64::MAX`), the revision is `n`, `min(n, max)` entries remain,
/// and their revisions are consecutive and end at `n`.
pub proof fn law_notification_log_counts_records(max: nat, ns: Seq<LspNotification>)
    requires
        ns.len() < u64::MAX,
    ensures
        notification_log_after(max, ns).0 == ns.len(),
        counted_log(notification_log_after(max, ns).1, notification_log_after(max, ns).0, max),
    decreases ns.len(),
{
    if ns.len() > 0 {
        law_notification_log_counts_records(max, ns.drop_last());
        let (rev, entries) = notification_log_after(max, ns.drop_last());
        lemma_counted_step(entries, rev, max, ns.last());
    }
}

} // verus!
