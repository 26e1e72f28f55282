//! Recurring actions: a stored rule with a message, and the decisions of the
//! task that fires it.
//!
//! A recurring action starts as a [`Draft`]. Its rule is read first
//! ([`Draft::validate`]); a draft whose rule cannot be read is rejected and
//! never stored. Once the store has given it a key it is a
//! [`RecurringAction`] ([`Draft::stored`]), and a [`Task`] runs it until the
//! rule is exhausted or the room is gone. After a restart every stored action
//! gets a fresh task ([`recover`]).
//!
//! The task itself sleeps and sends, which is the application's work. What it
//! decides is here: given where the task stands and what just happened, where
//! it stands next and what it is to do.
use crate::framework::text::{chars_of, contains, is_digit, occurs_in, CharClass};
use vstd::prelude::*;
use vstd::string::*;
use vstd::utf8::is_ascii_chars;

verus! {

/// A point in time: whole seconds since the Unix epoch, and the nanoseconds
/// past them.
#[derive(Clone, Copy, Debug, PartialEq, Eq, Structural)]
pub struct Instant {
    pub secs: i64,
    pub nanos: u32,
}

impl Instant {
    /// `self` is strictly earlier than `other`.
    pub open spec fn is_before(self, other: Instant) -> bool {
        self.secs < other.secs || (self.secs == other.secs && self.nanos < other.nanos)
    }

    /// The whole seconds from `now` to `self`, where `self` is not earlier.
    pub open spec fn seconds_after(self, now: Instant) -> int {
        self.secs - now.secs
    }

    /// Whether `self` is strictly earlier than `other`.
    pub fn before(&self, other: &Instant) -> (b: bool)
        ensures
            b == self.is_before(*other),
    {
        self.secs < other.secs || (self.secs == other.secs && self.nanos < other.nanos)
    }
}

/// A recurring action as it is stored: a recurrence rule, the message to
/// send, the room to send it to and the user who asked for it.
#[derive(Clone, Debug, PartialEq, Eq)]
pub struct RecurringAction {
    /// The key that the store gave the row.
    pub id: i64,
    pub rule: String,
    pub message: String,
    pub channel: String,
    pub userid: String,
}

impl RecurringAction {
    /// The text that is sent when the action fires: the author, a colon and
    /// a space, the message.
    pub open spec fn announced(self) -> Seq<char> {
        self.userid@ + ": "@ + self.message@
    }

    /// The text that is sent when the action fires.
    pub fn announcement(&self) -> (text: String)
        ensures
            text@ == self.announced(),
    {
        self.userid.clone().concat(": ").concat(self.message.as_str())
    }
}

/// A recurring action that is not stored yet.
#[derive(Clone, Debug, PartialEq, Eq)]
pub struct Draft {
    pub rule: String,
    pub message: String,
    pub channel: String,
    pub userid: String,
}

impl Draft {
    /// The action as it is stored under the key `id`: the fields of the
    /// draft, as they are.
    pub fn stored(self, id: i64) -> (action: RecurringAction)
        ensures
            action.id == id,
            action.rule == self.rule,
            action.message == self.message,
            action.channel == self.channel,
            action.userid == self.userid,
    {
        RecurringAction {
            id,
            rule: self.rule,
            message: self.message,
            channel: self.channel,
            userid: self.userid,
        }
    }
}

/// Where a running task stands.
#[derive(Clone, Copy, Debug, PartialEq, Eq, Structural)]
pub enum Phase {
    /// It wants the next occurrence of its rule.
    Iterating,
    /// It sleeps until the occurrence at `due`.
    Waiting { due: Instant },
    /// It has woken for the occurrence at `due` and looks for its room.
    Resolving { due: Instant },
    /// It sends the message of the occurrence at `due`.
    Sending { due: Instant },
    /// The rule has no more occurrences. The task has ended.
    Exhausted,
    /// The room could not be found, or an event came that the task did not
    /// wait for. The task has ended, and says nothing of it.
    Failed,
}

/// What happened since the task was last asked.
#[derive(Clone, Copy, Debug, PartialEq, Eq, Structural)]
pub enum Event {
    /// The rule gave its next occurrence, `at`; the clock read `now`.
    Occurrence { at: Instant, now: Instant },
    /// The rule has no further occurrence.
    NoOccurrence,
    /// The sleep is over.
    Woke,
    /// The room was found.
    RoomJoined,
    /// The service is not in the room.
    RoomMissing,
    /// The send was attempted. Whether it succeeded is not asked.
    Sent,
}

/// What the task is to do next.
#[derive(Clone, Debug, PartialEq, Eq)]
pub enum Action {
    /// Ask the rule for its next occurrence.
    Advance,
    /// Sleep for so many seconds.
    Sleep { seconds: u64 },
    /// Look for the room.
    ResolveRoom,
    /// Send `text` to the room.
    Send { text: String },
    /// End the task.
    Stop,
}

/// The mathematical content of an [`Action`].
pub enum ActionView {
    Advance,
    Sleep { seconds: u64 },
    ResolveRoom,
    Send { text: Seq<char> },
    Stop,
}

impl View for Action {
    type V = ActionView;

    open spec fn view(&self) -> ActionView {
        match self {
            Action::Advance => ActionView::Advance,
            Action::Sleep { seconds } => ActionView::Sleep { seconds: *seconds },
            Action::ResolveRoom => ActionView::ResolveRoom,
            Action::Send { text } => ActionView::Send { text: text@ },
            Action::Stop => ActionView::Stop,
        }
    }
}

impl Phase {
    /// The task has ended.
    pub open spec fn ended(self) -> bool {
        self is Exhausted || self is Failed
    }

    /// Where the task stands after `event`.
    ///
    /// An occurrence that lies before the clock's reading is passed over. Any
    /// other is waited for, then the room is looked for, then the message is
    /// sent, then the next occurrence is asked for. The task ends when the
    /// rule is exhausted or the room is missing. An event that the task did
    /// not wait for ends it too.
    pub open spec fn after(self, event: Event) -> Phase {
        match (self, event) {
            (Phase::Iterating, Event::Occurrence { at, now }) => if at.is_before(now) {
                Phase::Iterating
            } else {
                Phase::Waiting { due: at }
            },
            (Phase::Iterating, Event::NoOccurrence) => Phase::Exhausted,
            (Phase::Waiting { due }, Event::Woke) => Phase::Resolving { due },
            (Phase::Resolving { due }, Event::RoomJoined) => Phase::Sending { due },
            (Phase::Sending { due }, Event::Sent) => Phase::Iterating,
            (Phase::Exhausted, _) => Phase::Exhausted,
            _ => Phase::Failed,
        }
    }

    /// What the task that fires `action` is to do after `event`.
    pub open spec fn reaction(self, action: RecurringAction, event: Event) -> ActionView {
        match (self, event) {
            (Phase::Iterating, Event::Occurrence { at, now }) => if at.is_before(now) {
                ActionView::Advance
            } else {
                ActionView::Sleep { seconds: at.seconds_after(now) as u64 }
            },
            (Phase::Waiting { due }, Event::Woke) => ActionView::ResolveRoom,
            (Phase::Resolving { due }, Event::RoomJoined) => ActionView::Send {
                text: action.announced(),
            },
            (Phase::Sending { due }, Event::Sent) => ActionView::Advance,
            _ => ActionView::Stop,
        }
    }
}

/// A running task: a recurring action and where its task stands.
#[derive(Clone, Debug, PartialEq, Eq)]
pub struct Task {
    pub action: RecurringAction,
    pub phase: Phase,
}

impl Task {
    /// The task of `action`, about to ask for the first occurrence.
    pub fn new(action: RecurringAction) -> (task: Task)
        ensures
            task.action == action,
            task.phase == Phase::Iterating,
    {
        Task { action, phase: Phase::Iterating }
    }

    /// Takes note of `event` and says what to do next.
    pub fn step(&mut self, event: Event) -> (action: Action)
        ensures
            final(self).action == old(self).action,
            final(self).phase == old(self).phase.after(event),
            action@ == old(self).phase.reaction(old(self).action, event),
    {
        match (self.phase, event) {
            (Phase::Iterating, Event::Occurrence { at, now }) => {
                if at.before(&now) {
                    Action::Advance
                } else {
                    self.phase = Phase::Waiting { due: at };
                    let seconds: i128 = at.secs as i128 - now.secs as i128;
                    Action::Sleep { seconds: seconds as u64 }
                }
            },
            (Phase::Iterating, Event::NoOccurrence) => {
                self.phase = Phase::Exhausted;
                Action::Stop
            },
            (Phase::Waiting { due }, Event::Woke) => {
                self.phase = Phase::Resolving { due };
                Action::ResolveRoom
            },
            (Phase::Resolving { due }, Event::RoomJoined) => {
                self.phase = Phase::Sending { due };
                Action::Send { text: self.action.announcement() }
            },
            (Phase::Sending { due }, Event::Sent) => {
                self.phase = Phase::Iterating;
                Action::Advance
            },
            (Phase::Exhausted, _) => Action::Stop,
            _ => {
                self.phase = Phase::Failed;
                Action::Stop
            },
        }
    }
}

/// One task for each stored action, in the order of the rows, each about to
/// ask for its first occurrence.
pub fn recover(rows: Vec<RecurringAction>) -> (tasks: Vec<Task>)
    ensures
        tasks@.len() == rows@.len(),
        forall|i: int|
            0 <= i < rows@.len() ==> (#[trigger] tasks@[i]).action == rows@[i] && tasks@[i].phase
                == Phase::Iterating,
{
    let mut tasks: Vec<Task> = Vec::new();
    for row in it: rows
        invariant
            tasks@.len() == it.index(),
            forall|i: int|
                0 <= i < it.index() ==> (#[trigger] tasks@[i]).action == it.seq()[i]
                    && tasks@[i].phase == Phase::Iterating,
    {
        tasks.push(Task::new(row));
    }
    tasks
}

impl Phase {
    /// The occurrence that the task is busy with.
    pub open spec fn due(self) -> Option<Instant> {
        match self {
            Phase::Waiting { due } => Some(due),
            Phase::Resolving { due } => Some(due),
            Phase::Sending { due } => Some(due),
            _ => None,
        }
    }

    /// Where a task that stood at `self` stands after `events`, in order.
    pub open spec fn after_all(self, events: Seq<Event>) -> Phase
        decreases events.len(),
    {
        if events.len() == 0 {
            self
        } else {
            self.after_all(events.drop_last()).after(events.last())
        }
    }
}

impl Event {
    /// The event is an occurrence at `at` that did not lie before the
    /// clock's reading.
    pub open spec fn is_due(self, at: Instant) -> bool {
        self matches Event::Occurrence { at: t, now } && t == at && !t.is_before(now)
    }
}

/// An occurrence that lies before the clock's reading is passed over: the
/// task neither sleeps nor sends for it, and asks for the next one.
pub proof fn lemma_past_occurrence_passed_over(action: RecurringAction, at: Instant, now: Instant)
    requires
        at.is_before(now),
    ensures
        Phase::Iterating.after(Event::Occurrence { at, now }) == Phase::Iterating,
        Phase::Iterating.reaction(action, Event::Occurrence { at, now }) == ActionView::Advance,
{
}

/// A task that has ended stays as it ended, and is told to stop whatever
/// happens.
pub proof fn lemma_ended_stays_ended(phase: Phase, action: RecurringAction, event: Event)
    requires
        phase.ended(),
    ensures
        phase.after(event) == phase,
        phase.reaction(action, event) == ActionView::Stop,
{
}

/// Whatever happens to a fresh task, the occurrence that it is busy with is
/// one that the rule gave and that did not lie before the clock's reading.
pub proof fn lemma_busy_with_due_occurrence(events: Seq<Event>)
    ensures
        Phase::Iterating.after_all(events).due() matches Some(at) ==> exists|j: int|
            0 <= j < events.len() && (#[trigger] events[j]).is_due(at),
    decreases events.len(),
{
    if events.len() > 0 {
        let earlier = events.drop_last();
        lemma_busy_with_due_occurrence(earlier);
        let before = Phase::Iterating.after_all(earlier);
        let last = events.len() - 1;
        match Phase::Iterating.after_all(events).due() {
            Some(at) => {
                if before.due() == Some(at) {
                    let j = choose|j: int| 0 <= j < earlier.len() && (#[trigger] earlier[j]).is_due(at);
                    assert(events[j].is_due(at));
                } else {
                    assert(events[last].is_due(at));
                }
            },
            None => {},
        }
    }
}

/// A fresh task sends only for occurrences that did not lie before the
/// clock's reading: where its reaction to the event at `k` is to send, the
/// rule gave an occurrence before then, at or after what the clock read, and
/// the task has slept for it and found the room.
pub proof fn lemma_sends_only_when_due(action: RecurringAction, events: Seq<Event>, k: int)
    requires
        0 <= k < events.len(),
        Phase::Iterating.after_all(events.take(k)).reaction(action, events[k]) is Send,
    ensures
        exists|j: int|
            0 <= j < k && Phase::Iterating.after_all(events.take(k)) == (Phase::Resolving {
                due: (#[trigger] events[j])->at,
            }) && events[j].is_due(events[j]->at),
{
    let earlier = events.take(k);
    lemma_busy_with_due_occurrence(earlier);
    let at = Phase::Iterating.after_all(earlier).due()->0;
    let j = choose|j: int| 0 <= j < earlier.len() && (#[trigger] earlier[j]).is_due(at);
    assert(events[j] == earlier[j]);
}

/// How many times a fresh task is told to send in the course of `events`.
pub open spec fn sends_in(action: RecurringAction, events: Seq<Event>) -> nat
    decreases events.len(),
{
    if events.len() == 0 {
        0
    } else {
        sends_in(action, events.drop_last()) + if Phase::Iterating.after_all(
            events.drop_last(),
        ).reaction(action, events.last()) is Send {
            1nat
        } else {
            0nat
        }
    }
}

/// What happens to a task whose occurrences are all served: for each
/// occurrence in turn, given with the clock's reading, the rule gives it,
/// the sleep ends, the room is found and the send is made.
pub open spec fn served(occurrences: Seq<(Instant, Instant)>) -> Seq<Event>
    decreases occurrences.len(),
{
    if occurrences.len() == 0 {
        Seq::empty()
    } else {
        served(occurrences.drop_last()).push(
            Event::Occurrence { at: occurrences.last().0, now: occurrences.last().1 },
        ).push(Event::Woke).push(Event::RoomJoined).push(Event::Sent)
    }
}

/// One more event moves the task on by one step, and adds a send where the
/// task's reaction to it is to send.
pub proof fn lemma_one_more_event(action: RecurringAction, events: Seq<Event>, event: Event)
    ensures
        Phase::Iterating.after_all(events.push(event)) == Phase::Iterating.after_all(events).after(
            event,
        ),
        sends_in(action, events.push(event)) == sends_in(action, events) + if Phase::Iterating.after_all(
            events,
        ).reaction(action, event) is Send {
            1nat
        } else {
            0nat
        },
{
    assert(events.push(event).drop_last() == events);
    assert(events.push(event).last() == event);
}

/// A task whose occurrences all lie at or after the clock's reading, and
/// whose room is there each time, sends once for each occurrence and no
/// more, and is ready for the next occurrence after each. When the rule then
/// has no more, the task ends, and has still sent once for each.
pub proof fn lemma_one_send_for_each_occurrence(
    action: RecurringAction,
    occurrences: Seq<(Instant, Instant)>,
)
    requires
        forall|i: int|
            0 <= i < occurrences.len() ==> !(#[trigger] occurrences[i]).0.is_before(
                occurrences[i].1,
            ),
    ensures
        Phase::Iterating.after_all(served(occurrences)) == Phase::Iterating,
        sends_in(action, served(occurrences)) == occurrences.len(),
        Phase::Iterating.after_all(served(occurrences).push(Event::NoOccurrence))
            == Phase::Exhausted,
        sends_in(action, served(occurrences).push(Event::NoOccurrence)) == occurrences.len(),
    decreases occurrences.len(),
{
    if occurrences.len() > 0 {
        let earlier = occurrences.drop_last();
        let (at, now) = occurrences.last();
        assert forall|i: int| 0 <= i < earlier.len() implies !(#[trigger] earlier[i]).0.is_before(
            earlier[i].1,
        ) by {
            assert(earlier[i] == occurrences[i]);
        }
        lemma_one_send_for_each_occurrence(action, earlier);
        let e0 = served(earlier);
        let e1 = e0.push(Event::Occurrence { at, now });
        let e2 = e1.push(Event::Woke);
        let e3 = e2.push(Event::RoomJoined);
        let e4 = e3.push(Event::Sent);
        lemma_one_more_event(action, e0, Event::Occurrence { at, now });
        lemma_one_more_event(action, e1, Event::Woke);
        lemma_one_more_event(action, e2, Event::RoomJoined);
        lemma_one_more_event(action, e3, Event::Sent);
        assert(served(occurrences) == e4);
    }
    lemma_one_more_event(action, served(occurrences), Event::NoOccurrence);
}

/// `rrule::RRule`, a recurrence rule with its start date. Nothing of its
/// inside is known here.
#[verifier::external_type_specification]
#[verifier::external_body]
pub struct ExRecurrenceRule(rrule::RRule);

/// `rrule::RRuleError`, why a rule could not be read. Nothing of its inside
/// is known here.
#[verifier::external_type_specification]
#[verifier::external_body]
pub struct ExRecurrenceError(rrule::RRuleError);

/// `rrule::RRuleIter`, the iterator over the occurrences of a rule. Nothing
/// of its inside is known here.
#[verifier::external_type_specification]
#[verifier::external_body]
pub struct ExRecurrenceIter<'a>(rrule::RRuleIter<'a>);

/// Whether a rule is tame: it counts its days in UTC (its `tz` is `UTC`), it
/// goes on by fewer than a hundred of its steps at a time (its `interval`
/// is below 100), and it starts before the year 10001.
pub uninterp spec fn rule_tame(rule: rrule::RRule) -> bool;

/// The occurrences of a rule, in the order in which an iterator over it
/// gives them, each as seconds since the Unix epoch and the nanoseconds past
/// them.
pub uninterp spec fn rule_pending(rule: rrule::RRule) -> Seq<(i64, u32)>;

/// Whether an iterator is tame: it counts its days in UTC (its `tz` is
/// `UTC`), its rule goes on by fewer than a hundred steps at a time, and its
/// date counter (`counter_date`) lies before the year 20000. One call of
/// `next` makes at most 100000 rounds, each of which moves the counter on by
/// less than 800 days, so the counter of such an iterator stays before the
/// year 240000, within the dates that chrono can hold.
pub uninterp spec fn iter_tame(iter: rrule::RRuleIter<'_>) -> bool;

/// The occurrences that an iterator has still to give, in the order in which
/// it gives them, each as seconds since the Unix epoch and the nanoseconds
/// past them.
pub uninterp spec fn iter_pending(iter: rrule::RRuleIter<'_>) -> Seq<(i64, u32)>;

/// The first second of the year 10001, in seconds since the Unix epoch. No
/// occurrence at or after it is given.
pub const LAST_SECOND: i64 = 253_433_923_200;

/// The text names a start date: the word `DTSTART` stands somewhere in it.
pub open spec fn names_start_date(text: Seq<char>) -> bool {
    occurs_in("DTSTART"@, text)
}

/// The text names a time zone: the word `TZID` stands somewhere in it.
pub open spec fn names_zone(text: Seq<char>) -> bool {
    occurs_in("TZID"@, text)
}

/// `c` is the capital letter `capital` or its small letter.
pub open spec fn same_letter(c: char, capital: char) -> bool {
    c == capital || c as u32 == capital as u32 + 32
}

/// The word `INTERVAL` stands in `text` at the place `i`, in capitals, in
/// small letters or in both.
pub open spec fn spells_interval(text: Seq<char>, i: int) -> bool {
    &&& 0 <= i
    &&& i + 8 <= text.len()
    &&& same_letter(text[i], 'I')
    &&& same_letter(text[i + 1], 'N')
    &&& same_letter(text[i + 2], 'T')
    &&& same_letter(text[i + 3], 'E')
    &&& same_letter(text[i + 4], 'R')
    &&& same_letter(text[i + 5], 'V')
    &&& same_letter(text[i + 6], 'A')
    &&& same_letter(text[i + 7], 'L')
}

/// What follows the word `INTERVAL` at the place `i` is an equals sign and
/// one or two digits, and no third digit.
pub open spec fn interval_small_at(text: Seq<char>, i: int) -> bool {
    &&& i + 9 < text.len()
    &&& text[i + 8] == '='
    &&& is_digit(text[i + 9])
    &&& (i + 10 >= text.len() || !is_digit(text[i + 10]) || i + 11 >= text.len() || !is_digit(
        text[i + 11],
    ))
}

/// Wherever the text holds the word `INTERVAL`, a number below 100 follows.
pub open spec fn intervals_small(text: Seq<char>) -> bool {
    forall|i: int| #[trigger] spells_interval(text, i) ==> interval_small_at(text, i)
}

/// Why a text is refused before the parser of recurrence rules sees it, if
/// it is: a text that is not ASCII, a text that names a time zone, and a
/// text that gives an interval of a hundred or more, or gives it in another
/// form than as one or two digits. A rule counts its days in UTC here, and
/// it goes on by fewer than a hundred steps at a time.
pub open spec fn refusal_of(text: Seq<char>) -> Option<Seq<char>> {
    if !is_ascii_chars(text) {
        Some("the rule is not written in ASCII"@)
    } else if names_zone(text) {
        Some("the rule names a time zone; give its dates in UTC"@)
    } else if !intervals_small(text) {
        Some("the rule's interval is not a number below 100"@)
    } else {
        None
    }
}

/// `rrule::RRule`'s `FromStr::from_str`: reads a rule with its start date
/// from text. It is called on ASCII text that does not hold the word
/// `TZID`, and in which a number of one or two digits follows the word
/// `INTERVAL` wherever it stands. Two things are claimed of the result. A
/// text in which the word `DTSTART` stands nowhere is refused, for rrule
/// looks for the start date under that word and gives up without it. And a
/// rule that was read is tame: rrule takes the zone from a `TZID` beside the
/// start date and takes UTC where there is none; it takes the interval from
/// what follows the key `INTERVAL` and takes 1 where there is none; and it
/// reads the year of the start date from four digits. Which other texts are
/// rules is not claimed: a start date without a zone is read in the zone of
/// the machine, so the same text may be a rule on one machine and none on
/// another.
#[verifier::external_body]
fn parse_rule(text: &str) -> (r: Result<rrule::RRule, rrule::RRuleError>)
    requires
        refusal_of(text@) is None,
    ensures
        !names_start_date(text@) ==> r is Err,
        r matches Ok(rule) ==> rule_tame(rule),
{
    text.parse()
}

/// The `Debug` text of an `rrule::RRuleError`. Nothing is claimed of it.
#[verifier::external_body]
fn explain(error: &rrule::RRuleError) -> (text: String) {
    format!("{:?}", error)
}

/// `IntoIterator::into_iter` of `&rrule::RRule`: the iterator over the
/// rule's occurrences. It holds the occurrences of the rule, all of them.
/// It takes its zone and its interval from the rule and sets its date
/// counter to the rule's start, so the iterator over a tame rule is tame.
#[verifier::external_body]
fn iterate<'a>(rule: &'a rrule::RRule) -> (iter: rrule::RRuleIter<'a>)
    ensures
        iter_pending(iter) == rule_pending(*rule),
        rule_tame(*rule) ==> iter_tame(iter),
{
    rule.into_iter()
}

/// `Iterator::next` of `rrule::RRuleIter`, with the occurrence turned into
/// seconds and nanoseconds by chrono's `timestamp` and
/// `timestamp_subsec_nanos`. It is called on a tame iterator. It gives the
/// first of the occurrences that the iterator had still to give and leaves
/// the others; it gives nothing where none was left, and then none is left
/// after it either. Where it gives an occurrence before the year 10001, the
/// iterator is tame after the call: the date counter is then at most one
/// step of the rule, and a year, past that occurrence.
#[verifier::external_body]
fn next_instant(iter: &mut rrule::RRuleIter<'_>) -> (occurrence: Option<Instant>)
    requires
        iter_tame(*old(iter)),
    ensures
        match occurrence {
            Some(at) => iter_pending(*old(iter)).len() > 0 && (at.secs, at.nanos) == iter_pending(
                *old(iter),
            )[0] && iter_pending(*final(iter)) == iter_pending(*old(iter)).drop_first(),
            None => iter_pending(*old(iter)).len() == 0 && iter_pending(*final(iter)).len() == 0,
        },
        occurrence matches Some(at) && at.secs < LAST_SECOND ==> iter_tame(*final(iter)),
{
    iter.next().map(|dt| Instant { secs: dt.timestamp(), nanos: dt.timestamp_subsec_nanos() })
}

/// chrono's `Utc::now`, as seconds and nanoseconds. Nothing is claimed of
/// the clock.
#[verifier::external_body]
fn clock() -> (now: Instant) {
    let now = chrono::Utc::now();
    Instant { secs: now.timestamp(), nanos: now.timestamp_subsec_nanos() }
}

/// What the caller is told of a rule that could not be read.
pub open spec fn rejected(explanation: Seq<char>) -> Seq<char> {
    "Couldn't parse rule: "@ + explanation
}

/// What the caller is told of a rule that could not be read.
pub fn rejection(explanation: &str) -> (reply: String)
    ensures
        reply@ == rejected(explanation@),
{
    String::from_str("Couldn't parse rule: ").concat(explanation)
}

/// Whether `c` is the capital letter `capital` or its small letter.
fn is_letter(c: char, capital: char) -> (b: bool)
    requires
        'A' <= capital <= 'Z',
    ensures
        b == same_letter(c, capital),
{
    c == capital || c as u32 == capital as u32 + 32
}

/// Whether the text gives an interval that is not a number of one or two
/// digits.
pub fn has_large_interval(text: &str) -> (b: bool)
    ensures
        b == !intervals_small(text@),
{
    let chars = chars_of(text);
    let n = chars.len();
    let mut i: usize = 0;
    while i < n && n - i >= 8
        invariant
            chars@ == text@,
            n == chars@.len(),
            i <= n,
            forall|j: int| 0 <= j < i && #[trigger] spells_interval(text@, j) ==> interval_small_at(text@, j),
        decreases n - i,
    {
        let spelled = is_letter(chars[i], 'I') && is_letter(chars[i + 1], 'N') && is_letter(
            chars[i + 2],
            'T',
        ) && is_letter(chars[i + 3], 'E') && is_letter(chars[i + 4], 'R') && is_letter(
            chars[i + 5],
            'V',
        ) && is_letter(chars[i + 6], 'A') && is_letter(chars[i + 7], 'L');
        if spelled {
            let small = n - i > 9 && chars[i + 8] == '=' && CharClass::Digit.test(chars[i + 9]) && (n
                - i <= 10 || !CharClass::Digit.test(chars[i + 10]) || n - i <= 11
                || !CharClass::Digit.test(chars[i + 11]));
            if !small {
                assert(spells_interval(text@, i as int) && !interval_small_at(text@, i as int));
                return true;
            }
        }
        i += 1;
    }
    assert forall|j: int| #[trigger] spells_interval(text@, j) implies interval_small_at(
        text@,
        j,
    ) by {
        if spells_interval(text@, j) {
            assert(j < i);
        }
    }
    false
}

/// Why a text is refused before the parser of recurrence rules sees it, if
/// it is.
pub fn refusal(text: &str) -> (r: Option<String>)
    ensures
        match refusal_of(text@) {
            Some(explanation) => r matches Some(e) && e@ == explanation,
            None => r is None,
        },
{
    if !text.is_ascii() {
        Some(String::from_str("the rule is not written in ASCII"))
    } else if contains(text, "TZID") {
        Some(String::from_str("the rule names a time zone; give its dates in UTC"))
    } else if has_large_interval(text) {
        Some(String::from_str("the rule's interval is not a number below 100"))
    } else {
        None
    }
}

/// The instants that pairs of seconds and nanoseconds stand for.
pub open spec fn instants(pairs: Seq<(i64, u32)>) -> Seq<Instant> {
    Seq::new(pairs.len(), |i: int| Instant { secs: pairs[i].0, nanos: pairs[i].1 })
}

/// The instants of `all` that come before the first one at or after the
/// year 10001: the occurrences that are given.
pub open spec fn before_the_end(all: Seq<Instant>) -> Seq<Instant>
    decreases all.len(),
{
    if all.len() == 0 || all[0].secs >= LAST_SECOND {
        Seq::empty()
    } else {
        seq![all[0]] + before_the_end(all.drop_first())
    }
}

/// A recurrence rule that has been read from its text. It is tame.
#[derive(Debug)]
pub struct Recurrence {
    rule: rrule::RRule,
}

/// The occurrences of a rule that are still to come, in the order in which
/// the rule gives them, up to the year 10001.
#[derive(Debug)]
pub struct Occurrences<'a> {
    iter: rrule::RRuleIter<'a>,
    /// Whether the iterator may still be asked.
    live: bool,
}

impl Recurrence {
    #[verifier::type_invariant]
    spec fn is_tame(self) -> bool {
        rule_tame(self.rule)
    }

    /// The rule as the parser of recurrence rules gave it.
    pub closed spec fn rule(self) -> rrule::RRule {
        self.rule
    }

    /// The occurrences of the rule that come before the year 10001, in the
    /// order in which the rule gives them.
    pub closed spec fn all(self) -> Seq<Instant> {
        before_the_end(instants(rule_pending(self.rule)))
    }

    /// What comes of an attempt to read a rule: the rule as it was read, or,
    /// where it could not be read, what the caller is told, which quotes
    /// the explanation.
    pub fn from_reading(reading: Result<rrule::RRule, String>) -> (r: Result<Recurrence, String>)
        requires
            reading matches Ok(rule) ==> rule_tame(rule),
        ensures
            match reading {
                Ok(rule) => r matches Ok(recurrence) && recurrence.rule() == rule,
                Err(explanation) => r matches Err(reply) && reply@ == rejected(explanation@),
            },
    {
        match reading {
            Ok(rule) => Ok(Recurrence { rule }),
            Err(explanation) => Err(rejection(explanation.as_str())),
        }
    }

    /// Reads a rule from its text, or says why it cannot be read. A rule is
    /// read before a recurring action is stored, and again when its task
    /// starts.
    ///
    /// A text that is not ASCII, that names a time zone or that gives an
    /// interval of a hundred or more is refused here, with the reason. A
    /// text that names no start date is never a rule. Of any other text the
    /// parser of recurrence rules decides; what the caller is told of a text
    /// that it refuses quotes its explanation.
    pub fn parse(text: &str) -> (r: Result<Recurrence, String>)
        ensures
            refusal_of(text@) matches Some(explanation) ==> r matches Err(reply) && reply@
                == rejected(explanation),
            !names_start_date(text@) ==> r is Err,
            r matches Err(reply) ==> exists|explanation: Seq<char>|
                reply@ == #[trigger] rejected(explanation),
    {
        match refusal(text) {
            Some(explanation) => Self::from_reading(Err(explanation)),
            None => match parse_rule(text) {
                Ok(rule) => Self::from_reading(Ok(rule)),
                Err(error) => Self::from_reading(Err(explain(&error))),
            },
        }
    }

    /// The occurrences of the rule, from its start: all that the rule has
    /// before the year 10001.
    pub fn occurrences<'a>(&'a self) -> (occurrences: Occurrences<'a>)
        ensures
            occurrences.wf(),
            occurrences.remaining() == self.all(),
    {
        proof {
            use_type_invariant(self);
        }
        Occurrences { iter: iterate(&self.rule), live: true }
    }
}

/// What becomes of a draft once its rule has been read.
#[derive(Clone, Debug, PartialEq, Eq)]
pub enum Admission {
    /// The rule can be read: the draft is to be stored.
    Store(Draft),
    /// The rule cannot be read: the caller is told `reply`, and nothing is
    /// stored.
    Reject { reply: String },
}

impl Draft {
    /// What becomes of the draft given what came of reading its rule: a
    /// draft whose rule was read is to be stored as it is; one whose rule
    /// could not be read is rejected with the reply that the reading gave.
    pub fn admitted(self, reading: Result<Recurrence, String>) -> (admission: Admission)
        ensures
            match reading {
                Ok(_) => admission == Admission::Store(self),
                Err(reply) => admission matches Admission::Reject { reply: told } && told@
                    == reply@,
            },
    {
        match reading {
            Ok(_) => Admission::Store(self),
            Err(reply) => Admission::Reject { reply },
        }
    }

    /// Reads the draft's rule and says what becomes of the draft. The text
    /// that is read is the draft's rule, so what `Recurrence::parse` refuses
    /// is rejected here: a rule that is not ASCII, one that names a time
    /// zone, one with an interval of a hundred or more, one that names no
    /// start date. A draft that is to be stored is handed back as it was.
    pub fn validate(self) -> (admission: Admission)
        ensures
            refusal_of(self.rule@) matches Some(explanation) ==> admission matches Admission::Reject {
                reply,
            } && reply@ == rejected(explanation),
            !names_start_date(self.rule@) ==> admission is Reject,
            match admission {
                Admission::Store(draft) => draft == self,
                Admission::Reject { reply } => exists|explanation: Seq<char>|
                    reply@ == #[trigger] rejected(explanation),
            },
    {
        let reading = Recurrence::parse(self.rule.as_str());
        self.admitted(reading)
    }
}

/// What the task is told when its rule was asked for the next occurrence and
/// gave `occurrence`, with the clock at `now`.
pub fn event_of(occurrence: Option<Instant>, now: Instant) -> (event: Event)
    ensures
        event == match occurrence {
            Some(at) => Event::Occurrence { at, now },
            None => Event::NoOccurrence,
        },
{
    match occurrence {
        Some(at) => Event::Occurrence { at, now },
        None => Event::NoOccurrence,
    }
}

impl<'a> Occurrences<'a> {
    /// The occurrences are those of a rule that was read here, and the
    /// iterator is asked only while it is tame. `Recurrence::occurrences`
    /// gives no others, and `poll` keeps them so.
    pub closed spec fn wf(self) -> bool {
        self.live ==> iter_tame(self.iter)
    }

    /// The occurrences that are still to come, in the order in which they
    /// come: those that the iterator holds before the first one at or after
    /// the year 10001, and none once the iterator is asked no more.
    pub closed spec fn remaining(self) -> Seq<Instant> {
        if self.live {
            before_the_end(instants(iter_pending(self.iter)))
        } else {
            Seq::empty()
        }
    }

    /// Asks the rule for its next occurrence, reads the clock, and says what
    /// the task is to be told: the first of the occurrences that were still
    /// to come, which then is to come no more, with what the clock read; or
    /// that there is none, where none was left. Once there is none, the
    /// rule is asked no more.
    pub fn poll(&mut self) -> (event: Event)
        requires
            old(self).wf(),
        ensures
            final(self).wf(),
            match event {
                Event::Occurrence { at, now } => {
                    &&& old(self).remaining().len() > 0
                    &&& at == old(self).remaining()[0]
                    &&& final(self).remaining() == old(self).remaining().drop_first()
                },
                Event::NoOccurrence => {
                    &&& old(self).remaining().len() == 0
                    &&& final(self).remaining().len() == 0
                },
                _ => false,
            },
    {
        if !self.live {
            return event_of(None, clock());
        }
        let ghost before = instants(iter_pending(self.iter));
        let occurrence = next_instant(&mut self.iter);
        let ghost after = instants(iter_pending(self.iter));
        match occurrence {
            Some(at) => {
                if at.secs < LAST_SECOND {
                    proof {
                        assert(before[0] == at);
                        assert(after =~= before.drop_first());
                        assert(before_the_end(before) =~= seq![at] + before_the_end(after));
                        assert((seq![at] + before_the_end(after)).drop_first() =~= before_the_end(
                            after,
                        ));
                    }
                    event_of(Some(at), clock())
                } else {
                    proof {
                        assert(before[0] == at);
                    }
                    self.live = false;
                    event_of(None, clock())
                }
            },
            None => {
                self.live = false;
                event_of(None, clock())
            },
        }
    }
}

} // verus!
