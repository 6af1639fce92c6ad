//! The event scan that runs before any tree is built.
//!
//! Two things are only visible in the event stream: an anchor or alias,
//! because composing an alias is where a few hundred bytes become millions of
//! nodes, and a duplicate key, because the composer keeps one entry of the
//! two. The scan refuses both while reading each event once and expanding
//! nothing. For a well-nested stream ([`EventTree`]) the scan's verdict is
//! stated declaratively: it accepts exactly when no mapping, at any depth,
//! writes a key twice.

use crate::error::{malformed, same_outcome, Error, ErrorView, Stage};
use crate::rule;
use crate::yaml::{read_events, yaml_event_stream, ScanEvent};
use vstd::hash_set::StringHashSet;
use vstd::prelude::*;

verus! {

/// One open collection: the keys seen so far, and whether the next scalar in
/// it is a key or a value. Sequences have a frame too, so a mapping nested in
/// one does not inherit its parent's keys.
pub struct Frame {
    pub keys: StringHashSet,
    pub expecting_key: bool,
    pub is_mapping: bool,
}

/// What a frame holds.
pub struct FrameState {
    pub keys: Set<Seq<char>>,
    pub expecting_key: bool,
    pub is_mapping: bool,
}

impl View for Frame {
    type V = FrameState;

    open spec fn view(&self) -> FrameState {
        FrameState { keys: self.keys@, expecting_key: self.expecting_key, is_mapping: self.is_mapping }
    }
}

/// The states of a stack of frames, innermost last.
pub open spec fn frames(stack: Seq<Frame>) -> Seq<FrameState> {
    stack.map_values(|f: Frame| f@)
}

/// A collection that stands where a mapping expects a value moves that
/// mapping on to its next key.
pub open spec fn after_value(stack: Seq<FrameState>) -> Seq<FrameState> {
    if stack.len() > 0 && stack.last().is_mapping && !stack.last().expecting_key {
        stack.update(
            stack.len() - 1,
            FrameState { keys: stack.last().keys, expecting_key: true, is_mapping: true },
        )
    } else {
        stack
    }
}

/// Why the scan refuses a stream.
pub enum Refusal {
    /// An alias (`*name`).
    Alias,
    /// A node that carries an anchor (`&name`).
    Anchor,
    /// A key written twice in one mapping.
    DuplicateKey(Seq<char>),
}

/// One step of the scan: the next stack, or a refusal.
pub enum Step {
    Next(Seq<FrameState>),
    Refuse(Refusal),
}

/// A scalar is a key where the innermost frame is a mapping that expects one,
/// a value where it is a mapping that does not, and neither elsewhere.
pub open spec fn scalar_step(stack: Seq<FrameState>, k: Seq<char>) -> Step {
    if stack.len() > 0 && stack.last().is_mapping {
        let f = stack.last();
        if f.expecting_key {
            if f.keys.contains(k) {
                Step::Refuse(Refusal::DuplicateKey(k))
            } else {
                Step::Next(
                    stack.update(
                        stack.len() - 1,
                        FrameState { keys: f.keys.insert(k), expecting_key: false, is_mapping: true },
                    ),
                )
            }
        } else {
            Step::Next(
                stack.update(
                    stack.len() - 1,
                    FrameState { keys: f.keys, expecting_key: true, is_mapping: true },
                ),
            )
        }
    } else {
        Step::Next(stack)
    }
}

/// The scan's reaction to one event: an alias or an anchored node is refused;
/// a collection that opens takes the place of a value and pushes its own
/// frame; a collection that closes pops its frame; a scalar is a key or a value.
pub open spec fn scan_step(stack: Seq<FrameState>, ev: ScanEvent) -> Step {
    match ev {
        ScanEvent::Alias => Step::Refuse(Refusal::Alias),
        ScanEvent::MappingStart(anchor) => if anchor != 0 {
            Step::Refuse(Refusal::Anchor)
        } else {
            Step::Next(
                after_value(stack).push(
                    FrameState { keys: Set::empty(), expecting_key: true, is_mapping: true },
                ),
            )
        },
        ScanEvent::SequenceStart(anchor) => if anchor != 0 {
            Step::Refuse(Refusal::Anchor)
        } else {
            Step::Next(
                after_value(stack).push(
                    FrameState { keys: Set::empty(), expecting_key: false, is_mapping: false },
                ),
            )
        },
        ScanEvent::MappingEnd => Step::Next(
            if stack.len() > 0 {
                stack.drop_last()
            } else {
                stack
            },
        ),
        ScanEvent::SequenceEnd => Step::Next(
            if stack.len() > 0 {
                stack.drop_last()
            } else {
                stack
            },
        ),
        ScanEvent::Scalar(s, anchor) => if anchor != 0 {
            Step::Refuse(Refusal::Anchor)
        } else {
            scalar_step(stack, s@)
        },
        ScanEvent::Other => Step::Next(stack),
    }
}

/// The first refusal met when the events are scanned from `stack`, if any.
pub open spec fn scan_from(stack: Seq<FrameState>, events: Seq<ScanEvent>) -> Option<Refusal>
    decreases events.len(),
{
    if events.len() == 0 {
        None
    } else {
        match scan_step(stack, events[0]) {
            Step::Next(next) => scan_from(next, events.drop_first()),
            Step::Refuse(r) => Some(r),
        }
    }
}

/// The rejection for a text the parser could not read.
pub open spec fn not_yaml_error(stage: Stage, path: Seq<char>, what: Seq<char>, message: Seq<char>) -> ErrorView {
    malformed(rule::WELL_FORMED@, stage, path, what + rule::NOT_YAML@ + message)
}

/// The verdict of the scan on an event stream that may end in a parser error:
/// a refusal met among the events comes first, then the parser's error. An
/// anchor is refused under the same rule as an alias.
pub open spec fn scan_verdict(
    events: Seq<ScanEvent>,
    failure: Option<Seq<char>>,
    stage: Stage,
    path: Seq<char>,
    what: Seq<char>,
) -> Result<(), ErrorView> {
    match scan_from(Seq::empty(), events) {
        Some(Refusal::Alias) => Err(malformed(rule::ALIAS@, stage, path, what + rule::USES_ALIAS@)),
        Some(Refusal::Anchor) => Err(malformed(rule::ALIAS@, stage, path, what + rule::USES_ALIAS@)),
        Some(Refusal::DuplicateKey(k)) => Err(
            malformed(rule::DUPLICATE_KEY@, stage, path, what + rule::DECLARES@ + k + rule::TWICE@),
        ),
        None => match failure {
            Some(m) => Err(not_yaml_error(stage, path, what, m)),
            None => Ok(()),
        },
    }
}

/// A collection appearing where a mapping expects a value moves the frame on
/// to the next key.
pub fn consume_value(stack: &mut Vec<Frame>)
    ensures
        frames(final(stack)@) == after_value(frames(old(stack)@)),
{
    let ghost before = frames(stack@);
    if stack.len() > 0 && stack[stack.len() - 1].is_mapping && !stack[stack.len() - 1].expecting_key {
        let mut f = stack.pop().unwrap();
        f.expecting_key = true;
        stack.push(f);
        assert(frames(stack@) =~= after_value(before));
    } else {
        assert(frames(stack@) =~= after_value(before));
    }
}

impl Frame {
    /// A frame for a collection that has just opened: a mapping expects its
    /// first key, a sequence expects none.
    pub fn empty(is_mapping: bool) -> (f: Frame)
        ensures
            f@ == (FrameState { keys: Set::empty(), expecting_key: is_mapping, is_mapping }),
    {
        Frame { keys: StringHashSet::new(), expecting_key: is_mapping, is_mapping }
    }
}

fn anchor_or_alias(stage: Stage, path: &str, what: &str) -> (e: Error)
    ensures
        e@ == malformed(rule::ALIAS@, stage, path@, what@ + rule::USES_ALIAS@),
{
    let mut d = String::from_str(what);
    d.append(rule::USES_ALIAS);
    Error::malformed(rule::ALIAS, stage, path, d)
}

/// Scans an event stream that the parser may have cut short with an error.
pub fn scan_events(
    events: &Vec<ScanEvent>,
    failure: Option<String>,
    stage: Stage,
    path: &str,
    what: &str,
) -> (r: Result<(), Error>)
    ensures
        same_outcome(r, scan_verdict(events@, crate::yaml::opt_text(failure), stage, path@, what@)),
{
    let mut stack: Vec<Frame> = Vec::new();
    let mut i: usize = 0;
    assert(events@.skip(0) =~= events@);
    assert(frames(stack@) =~= Seq::<FrameState>::empty());
    while i < events.len()
        invariant
            i <= events@.len(),
            scan_from(Seq::empty(), events@) == scan_from(frames(stack@), events@.skip(i as int)),
        decreases events@.len() - i,
    {
        let ghost st = frames(stack@);
        assert(events@.skip(i as int)[0] == events@[i as int]);
        assert(events@.skip(i as int).drop_first() =~= events@.skip(i + 1));
        match &events[i] {
            ScanEvent::Alias => {
                return Err(anchor_or_alias(stage, path, what));
            },
            ScanEvent::MappingStart(anchor) => {
                if *anchor != 0 {
                    return Err(anchor_or_alias(stage, path, what));
                }
                consume_value(&mut stack);
                stack.push(Frame::empty(true));
                assert(frames(stack@) =~= after_value(st).push(
                    FrameState { keys: Set::empty(), expecting_key: true, is_mapping: true },
                ));
            },
            ScanEvent::SequenceStart(anchor) => {
                if *anchor != 0 {
                    return Err(anchor_or_alias(stage, path, what));
                }
                consume_value(&mut stack);
                stack.push(Frame::empty(false));
                assert(frames(stack@) =~= after_value(st).push(
                    FrameState { keys: Set::empty(), expecting_key: false, is_mapping: false },
                ));
            },
            ScanEvent::MappingEnd | ScanEvent::SequenceEnd => {
                if stack.len() > 0 {
                    stack.pop();
                    assert(frames(stack@) =~= st.drop_last());
                }
            },
            ScanEvent::Scalar(value, anchor) => {
                if *anchor != 0 {
                    return Err(anchor_or_alias(stage, path, what));
                }
                let n = stack.len();
                if n > 0 && stack[n - 1].is_mapping {
                    let mut f = stack.pop().unwrap();
                    assert(f@ == st[n - 1]);
                    assert(frames(stack@) =~= st.drop_last());
                    if f.expecting_key {
                        if f.keys.contains(value.as_str()) {
                            let mut d = String::from_str(what);
                            d.append(rule::DECLARES);
                            d.append(value.as_str());
                            d.append(rule::TWICE);
                            return Err(Error::malformed(rule::DUPLICATE_KEY, stage, path, d));
                        }
                        f.expecting_key = false;
                        f.keys.insert(value.clone());
                    } else {
                        f.expecting_key = true;
                    }
                    stack.push(f);
                    assert(frames(stack@) =~= st.update(n - 1, f@));
                }
            },
            ScanEvent::Other => {},
        }
        i = i + 1;
    }
    match failure {
        Some(m) => {
            let mut d = String::from_str(what);
            d.append(rule::NOT_YAML);
            d.append(m.as_str());
            Err(Error::malformed(rule::WELL_FORMED, stage, path, d))
        },
        None => Ok(()),
    }
}

/// Scans `text` as an event stream and refuses what the composer would
/// otherwise silently absorb: an alias, or a key declared twice in one mapping.
pub fn scan_input(text: &str, stage: Stage, path: &str, what: &str) -> (r: Result<(), Error>)
    ensures
        same_outcome(
            r,
            scan_verdict(yaml_event_stream(text@).0, yaml_event_stream(text@).1, stage, path@, what@),
        ),
{
    let (events, failure) = read_events(text);
    scan_events(&events, failure, stage, path, what)
}

/// Runs the scan over `events` from `stack`: the stack it ends with, or the
/// first refusal.
pub open spec fn scan_run(stack: Seq<FrameState>, events: Seq<ScanEvent>) -> Step
    decreases events.len(),
{
    if events.len() == 0 {
        Step::Next(stack)
    } else {
        match scan_step(stack, events[0]) {
            Step::Next(next) => scan_run(next, events.drop_first()),
            Step::Refuse(r) => Step::Refuse(r),
        }
    }
}

/// Scanning two streams one after the other is scanning their concatenation.
pub proof fn lemma_scan_concat(stack: Seq<FrameState>, a: Seq<ScanEvent>, b: Seq<ScanEvent>)
    ensures
        scan_from(stack, a + b) == match scan_run(stack, a) {
            Step::Next(t) => scan_from(t, b),
            Step::Refuse(r) => Some(r),
        },
    decreases a.len(),
{
    if a.len() > 0 {
        assert((a + b)[0] == a[0]);
        assert((a + b).drop_first() =~= a.drop_first() + b);
        match scan_step(stack, a[0]) {
            Step::Next(next) => lemma_scan_concat(next, a.drop_first(), b),
            Step::Refuse(_) => {},
        }
    } else {
        assert(a + b =~= b);
    }
}

/// The event is a node that carries an anchor.
pub open spec fn is_anchored(e: ScanEvent) -> bool {
    match e {
        ScanEvent::Scalar(_, anchor) => anchor != 0,
        ScanEvent::SequenceStart(anchor) => anchor != 0,
        ScanEvent::MappingStart(anchor) => anchor != 0,
        _ => false,
    }
}

/// A stream the scan accepts holds no alias and no anchored node.
pub proof fn law_accepted_stream_has_no_alias_or_anchor(stack: Seq<FrameState>, events: Seq<ScanEvent>)
    requires
        scan_from(stack, events) is None,
    ensures
        forall|i: int|
            0 <= i < events.len() ==> !(#[trigger] events[i] is Alias) && !is_anchored(events[i]),
        forall|i: int|
            0 <= i < events.len() ==> match #[trigger] events[i] {
                ScanEvent::Alias => false,
                ScanEvent::Scalar(_, anchor) => anchor == 0,
                ScanEvent::SequenceStart(anchor) => anchor == 0,
                ScanEvent::MappingStart(anchor) => anchor == 0,
                _ => true,
            },
    decreases events.len(),
{
    if events.len() > 0 {
        match scan_step(stack, events[0]) {
            Step::Next(next) => {
                law_accepted_stream_has_no_alias_or_anchor(next, events.drop_first());
                assert forall|i: int| 0 <= i < events.len() implies !(#[trigger] events[i] is Alias)
                    && !is_anchored(events[i]) by {
                    if i > 0 {
                        assert(events[i] == events.drop_first()[i - 1]);
                    }
                }
            },
            Step::Refuse(_) => {},
        }
    }
}

/// Scanning a run of events and then a stream is scanning their concatenation.
pub proof fn lemma_run_concat(stack: Seq<FrameState>, a: Seq<ScanEvent>, b: Seq<ScanEvent>)
    ensures
        scan_run(stack, a + b) == match scan_run(stack, a) {
            Step::Next(t) => scan_run(t, b),
            Step::Refuse(r) => Step::Refuse(r),
        },
    decreases a.len(),
{
    if a.len() > 0 {
        assert((a + b)[0] == a[0]);
        assert((a + b).drop_first() =~= a.drop_first() + b);
        match scan_step(stack, a[0]) {
            Step::Next(next) => lemma_run_concat(next, a.drop_first(), b),
            Step::Refuse(_) => {},
        }
    } else {
        assert(a + b =~= b);
    }
}

/// Running the scan over one event is taking one step.
pub proof fn lemma_run_one(stack: Seq<FrameState>, e: ScanEvent)
    ensures
        scan_run(stack, seq![e]) == scan_step(stack, e),
{
    assert(seq![e][0] == e);
    assert(seq![e].drop_first() =~= Seq::<ScanEvent>::empty());
    match scan_step(stack, e) {
        Step::Next(n) => {
            assert(scan_run(n, Seq::<ScanEvent>::empty()) == Step::Next(n));
        },
        Step::Refuse(_) => {},
    }
}

/// The scan's first refusal is the refusal its run ends with.
pub proof fn lemma_from_run(stack: Seq<FrameState>, events: Seq<ScanEvent>)
    ensures
        scan_from(stack, events) == match scan_run(stack, events) {
            Step::Next(_) => None,
            Step::Refuse(r) => Some(r),
        },
    decreases events.len(),
{
    if events.len() > 0 {
        match scan_step(stack, events[0]) {
            Step::Next(next) => lemma_from_run(next, events.drop_first()),
            Step::Refuse(_) => {},
        }
    }
}

/// A well-nested node as the parser reports it, with no anchor and no alias:
/// a scalar, a sequence of nodes, or a mapping whose keys are scalars.
pub enum EventTree {
    Scalar(String),
    Sequence(Seq<EventTree>),
    Mapping(Seq<(String, EventTree)>),
}

/// The events the parser reports for a node.
pub open spec fn tree_events(t: EventTree) -> Seq<ScanEvent>
    decreases t, 0nat,
{
    match t {
        EventTree::Scalar(s) => seq![ScanEvent::Scalar(s, 0)],
        EventTree::Sequence(items) => seq![ScanEvent::SequenceStart(0)] + items_events(
            items,
            items.len(),
        ) + seq![ScanEvent::SequenceEnd],
        EventTree::Mapping(entries) => seq![ScanEvent::MappingStart(0)] + entries_events(
            entries,
            entries.len(),
        ) + seq![ScanEvent::MappingEnd],
    }
}

/// The events of the first `k` items of a sequence.
pub open spec fn items_events(items: Seq<EventTree>, k: nat) -> Seq<ScanEvent>
    decreases items, k,
{
    if k == 0 || k > items.len() {
        Seq::empty()
    } else {
        items_events(items, (k - 1) as nat) + tree_events(items[k - 1])
    }
}

/// The events of the first `k` entries of a mapping: each key scalar, then
/// the events of its value.
pub open spec fn entries_events(entries: Seq<(String, EventTree)>, k: nat) -> Seq<ScanEvent>
    decreases entries, k,
{
    if k == 0 || k > entries.len() {
        Seq::empty()
    } else {
        entries_events(entries, (k - 1) as nat) + seq![ScanEvent::Scalar(entries[k - 1].0, 0)]
            + tree_events(entries[k - 1].1)
    }
}

/// One of the first `n` entries has key `key`.
pub open spec fn key_among(entries: Seq<(String, EventTree)>, n: int, key: Seq<char>) -> bool {
    exists|j: int| 0 <= j < n && #[trigger] entries[j].0@ == key
}

/// The keys of the first `k` entries.
pub open spec fn keys_of(entries: Seq<(String, EventTree)>, k: nat) -> Set<Seq<char>> {
    Set::new(|x: Seq<char>| key_among(entries, k as int, x))
}

/// No mapping anywhere in the node writes a key twice.
pub open spec fn tree_keys_distinct(t: EventTree) -> bool
    decreases t, 0nat,
{
    match t {
        EventTree::Scalar(_) => true,
        EventTree::Sequence(items) => items_keys_distinct(items, items.len()),
        EventTree::Mapping(entries) => entries_keys_distinct(entries, entries.len()),
    }
}

/// No mapping in the first `k` items writes a key twice.
pub open spec fn items_keys_distinct(items: Seq<EventTree>, k: nat) -> bool
    decreases items, k,
{
    if k == 0 || k > items.len() {
        true
    } else {
        items_keys_distinct(items, (k - 1) as nat) && tree_keys_distinct(items[k - 1])
    }
}

/// The first `k` entries have pairwise different keys, and no mapping in their
/// values writes a key twice.
pub open spec fn entries_keys_distinct(entries: Seq<(String, EventTree)>, k: nat) -> bool
    decreases entries, k,
{
    if k == 0 || k > entries.len() {
        true
    } else {
        &&& entries_keys_distinct(entries, (k - 1) as nat)
        &&& !key_among(entries, k - 1, entries[k - 1].0@)
        &&& tree_keys_distinct(entries[k - 1].1)
    }
}

/// The stack can take a value: its innermost frame is not a mapping waiting
/// for a key.
pub open spec fn value_position(stack: Seq<FrameState>) -> bool {
    !(stack.len() > 0 && stack.last().is_mapping && stack.last().expecting_key)
}

/// A run ends at `next` when `ok`, and is refused for a duplicate key otherwise.
pub open spec fn scans_to(step: Step, ok: bool, next: Seq<FrameState>) -> bool {
    if ok {
        step == Step::Next(next)
    } else {
        step matches Step::Refuse(Refusal::DuplicateKey(_))
    }
}

/// A node in value position is accepted exactly when no mapping in it writes a
/// key twice, and then it leaves the stack as a value does.
pub proof fn lemma_node(stack: Seq<FrameState>, t: EventTree)
    requires
        value_position(stack),
    ensures
        scans_to(scan_run(stack, tree_events(t)), tree_keys_distinct(t), after_value(stack)),
    decreases t, 0nat,
{
    match t {
        EventTree::Scalar(v) => {
            lemma_run_one(stack, ScanEvent::Scalar(v, 0));
            if stack.len() > 0 && stack.last().is_mapping {
                assert(scalar_step(stack, v@) == Step::Next(after_value(stack)));
            }
        },
        EventTree::Sequence(items) => {
            let open = seq![ScanEvent::SequenceStart(0)];
            let body = items_events(items, items.len());
            let close = seq![ScanEvent::SequenceEnd];
            let s1 = after_value(stack).push(
                FrameState { keys: Set::empty(), expecting_key: false, is_mapping: false },
            );
            lemma_run_concat(stack, open + body, close);
            lemma_run_concat(stack, open, body);
            lemma_run_one(stack, ScanEvent::SequenceStart(0));
            lemma_items(s1, items, items.len());
            if items_keys_distinct(items, items.len()) {
                lemma_run_one(s1, ScanEvent::SequenceEnd);
                assert(s1.drop_last() =~= after_value(stack));
            }
        },
        EventTree::Mapping(entries) => {
            let open = seq![ScanEvent::MappingStart(0)];
            let body = entries_events(entries, entries.len());
            let close = seq![ScanEvent::MappingEnd];
            let s1 = after_value(stack).push(
                FrameState { keys: Set::empty(), expecting_key: true, is_mapping: true },
            );
            lemma_run_concat(stack, open + body, close);
            lemma_run_concat(stack, open, body);
            lemma_run_one(stack, ScanEvent::MappingStart(0));
            lemma_entries(s1, entries, entries.len());
            if entries_keys_distinct(entries, entries.len()) {
                let s2 = s1.update(
                    s1.len() - 1,
                    FrameState { keys: keys_of(entries, entries.len()), expecting_key: true, is_mapping: true },
                );
                lemma_run_one(s2, ScanEvent::MappingEnd);
                assert(s2.drop_last() =~= after_value(stack));
            }
        },
    }
}

/// The items of a sequence are accepted exactly when no mapping in them writes
/// a key twice, and then leave the sequence's stack as it was.
pub proof fn lemma_items(stack: Seq<FrameState>, items: Seq<EventTree>, k: nat)
    requires
        stack.len() > 0,
        !stack.last().is_mapping,
    ensures
        scans_to(scan_run(stack, items_events(items, k)), items_keys_distinct(items, k), stack),
    decreases items, k,
{
    if k == 0 || k > items.len() {
        assert(scan_run(stack, Seq::<ScanEvent>::empty()) == Step::Next(stack));
    } else {
        lemma_run_concat(stack, items_events(items, (k - 1) as nat), tree_events(items[k - 1]));
        lemma_items(stack, items, (k - 1) as nat);
        lemma_node(stack, items[k - 1]);
        assert(after_value(stack) == stack);
    }
}

/// The entries of a mapping that has just opened are accepted exactly when
/// their keys are pairwise different and no mapping in their values writes a
/// key twice; the mapping then holds their keys and waits for the next one.
pub proof fn lemma_entries(stack: Seq<FrameState>, entries: Seq<(String, EventTree)>, k: nat)
    requires
        stack.len() > 0,
        stack.last() == (FrameState { keys: Set::empty(), expecting_key: true, is_mapping: true }),
        k <= entries.len(),
    ensures
        scans_to(
            scan_run(stack, entries_events(entries, k)),
            entries_keys_distinct(entries, k),
            stack.update(
                stack.len() - 1,
                FrameState { keys: keys_of(entries, k), expecting_key: true, is_mapping: true },
            ),
        ),
    decreases entries, k,
{
    let n = stack.len() - 1;
    if k == 0 {
        assert(keys_of(entries, 0) =~= Set::<Seq<char>>::empty());
        assert(stack.update(
            n,
            FrameState { keys: keys_of(entries, 0), expecting_key: true, is_mapping: true },
        ) =~= stack);
        assert(scan_run(stack, Seq::<ScanEvent>::empty()) == Step::Next(stack));
    } else {
        let key = entries[k - 1].0;
        let value = entries[k - 1].1;
        let prefix = entries_events(entries, (k - 1) as nat);
        let key_ev = seq![ScanEvent::Scalar(key, 0)];
        lemma_run_concat(stack, prefix + key_ev, tree_events(value));
        lemma_run_concat(stack, prefix, key_ev);
        lemma_entries(stack, entries, (k - 1) as nat);
        if entries_keys_distinct(entries, (k - 1) as nat) {
            let before = keys_of(entries, (k - 1) as nat);
            let s1 = stack.update(n, FrameState { keys: before, expecting_key: true, is_mapping: true });
            lemma_run_one(s1, ScanEvent::Scalar(key, 0));
            assert(s1.last() == s1[n]);
            if before.contains(key@) {
                assert(key_among(entries, k - 1, key@));
            } else {
                let s2 = s1.update(n, FrameState { keys: before.insert(key@), expecting_key: false, is_mapping: true });
                assert(scalar_step(s1, key@) == Step::Next(s2));
                assert(!key_among(entries, k - 1, key@));
                assert(s2.last() == s2[n]);
                lemma_node(s2, value);
                assert(keys_of(entries, k) =~= before.insert(key@)) by {
                    assert forall|x: Seq<char>| keys_of(entries, k).contains(x) implies before.insert(key@).contains(x) by {
                        let j = choose|j: int| 0 <= j < k && #[trigger] entries[j].0@ == x;
                        if j < k - 1 {
                            assert(key_among(entries, k - 1, x));
                        }
                    }
                    assert forall|x: Seq<char>| before.insert(key@).contains(x) implies keys_of(entries, k).contains(x) by {
                        if x == key@ {
                            assert(entries[k - 1].0@ == x);
                        } else {
                            let j = choose|j: int| 0 <= j < k - 1 && #[trigger] entries[j].0@ == x;
                            assert(0 <= j < k);
                        }
                    }
                }
                assert(after_value(s2) =~= stack.update(
                    n,
                    FrameState { keys: keys_of(entries, k), expecting_key: true, is_mapping: true },
                ));
            }
        }
    }
}

/// The scan accepts the events of a well-nested node exactly when no mapping
/// in it, at any depth, writes a key twice; otherwise it refuses them for a
/// duplicate key.
pub proof fn law_node_accepted_iff_keys_distinct(stack: Seq<FrameState>, t: EventTree)
    requires
        value_position(stack),
    ensures
        scan_from(stack, tree_events(t)) is None <==> tree_keys_distinct(t),
        !tree_keys_distinct(t) ==> scan_from(stack, tree_events(t)) matches Some(
            Refusal::DuplicateKey(_),
        ),
{
    lemma_node(stack, t);
    lemma_from_run(stack, tree_events(t));
}

/// A key written again in a mapping that already holds it is refused, whatever
/// the values before it (nested collections included) and wherever the
/// mapping stands: after a mapping opens and a run of entries, a key scalar
/// equal to one of the run's keys ends the scan with a duplicate-key refusal
/// (or an earlier one).
pub proof fn law_repeated_key_is_refused(
    stack: Seq<FrameState>,
    entries: Seq<(String, EventTree)>,
    i: int,
    again: String,
    tail: Seq<ScanEvent>,
)
    requires
        0 <= i < entries.len(),
        again@ == entries[i].0@,
    ensures
        scan_from(
            stack,
            seq![ScanEvent::MappingStart(0)] + entries_events(entries, entries.len())
                + seq![ScanEvent::Scalar(again, 0)] + tail,
        ) matches Some(Refusal::DuplicateKey(_)),
{
    let open = seq![ScanEvent::MappingStart(0)];
    let body = entries_events(entries, entries.len());
    let last = seq![ScanEvent::Scalar(again, 0)];
    let s1 = after_value(stack).push(FrameState { keys: Set::empty(), expecting_key: true, is_mapping: true });
    lemma_scan_concat(stack, open + body + last, tail);
    lemma_run_concat(stack, open + body, last);
    lemma_run_concat(stack, open, body);
    lemma_run_one(stack, ScanEvent::MappingStart(0));
    lemma_entries(s1, entries, entries.len());
    if entries_keys_distinct(entries, entries.len()) {
        let keys = keys_of(entries, entries.len());
        let s2 = s1.update(s1.len() - 1, FrameState { keys, expecting_key: true, is_mapping: true });
        assert(key_among(entries, entries.len() as int, again@));
        assert(s2.last() == s2[s1.len() - 1]);
        lemma_run_one(s2, ScanEvent::Scalar(again, 0));
    }
}

} // verus!
