use vstd::prelude::*;

verus! {

/// Identity of a physical key on one half of the keyboard. There are at most
/// 64 identities, so that an ordinal fits in the six low bits of a byte.
#[derive(Debug, PartialEq, Eq, Structural, Copy, Clone)]
pub enum KeyId {
        K1, K2, K3, K4, K5, K6, K7, K8, K9, K10,
        K11, K12, K13, K14, K15, K16, K17, K18, K19, K20,
        K21, K22, K23, K24, K25, K26, K27, K28, K29, K30,
        K31, K32, K33, K34, K35, K36, K37, K38, K39, K40,
}

/// A key identity tagged with the hand it belongs to.
#[derive(Debug, PartialEq, Eq, Structural, Copy, Clone)]
pub enum Key {
    Left(KeyId),
    Right(KeyId),
}

/// A single transition of one key.
#[derive(Debug, PartialEq, Eq, Structural, Copy, Clone)]
pub enum Event {
    Down(Key),
    Up(Key),
}

/// A key whose press and release both belong to a resolved chord.
#[derive(Debug, PartialEq, Eq, Structural, Copy, Clone)]
pub struct Pressed(pub Key);

/// Capacity of the event log.
pub const STACK_SIZE: usize = 128;

/// Capacity of a resolved chord.
pub const PRESS_SIZE: usize = 64;

/// Capacity of an output report.
pub const REPORT_SIZE: usize = 32;

/// Zero-based ordinal of a key identity: its six-bit wire value.
pub open spec fn key_ordinal(id: KeyId) -> u8 {
    match id {
        KeyId::K1 => 0,
        KeyId::K2 => 1,
        KeyId::K3 => 2,
        KeyId::K4 => 3,
        KeyId::K5 => 4,
        KeyId::K6 => 5,
        KeyId::K7 => 6,
        KeyId::K8 => 7,
        KeyId::K9 => 8,
        KeyId::K10 => 9,
        KeyId::K11 => 10,
        KeyId::K12 => 11,
        KeyId::K13 => 12,
        KeyId::K14 => 13,
        KeyId::K15 => 14,
        KeyId::K16 => 15,
        KeyId::K17 => 16,
        KeyId::K18 => 17,
        KeyId::K19 => 18,
        KeyId::K20 => 19,
        KeyId::K21 => 20,
        KeyId::K22 => 21,
        KeyId::K23 => 22,
        KeyId::K24 => 23,
        KeyId::K25 => 24,
        KeyId::K26 => 25,
        KeyId::K27 => 26,
        KeyId::K28 => 27,
        KeyId::K29 => 28,
        KeyId::K30 => 29,
        KeyId::K31 => 30,
        KeyId::K32 => 31,
        KeyId::K33 => 32,
        KeyId::K34 => 33,
        KeyId::K35 => 34,
        KeyId::K36 => 35,
        KeyId::K37 => 36,
        KeyId::K38 => 37,
        KeyId::K39 => 38,
        KeyId::K40 => 39,
    }
}

/// The identity whose ordinal is `n`; an ordinal outside the enumeration
/// falls back to the first identity.
pub open spec fn key_id_of(n: u8) -> KeyId {
    match n {
        0 => KeyId::K1,
        1 => KeyId::K2,
        2 => KeyId::K3,
        3 => KeyId::K4,
        4 => KeyId::K5,
        5 => KeyId::K6,
        6 => KeyId::K7,
        7 => KeyId::K8,
        8 => KeyId::K9,
        9 => KeyId::K10,
        10 => KeyId::K11,
        11 => KeyId::K12,
        12 => KeyId::K13,
        13 => KeyId::K14,
        14 => KeyId::K15,
        15 => KeyId::K16,
        16 => KeyId::K17,
        17 => KeyId::K18,
        18 => KeyId::K19,
        19 => KeyId::K20,
        20 => KeyId::K21,
        21 => KeyId::K22,
        22 => KeyId::K23,
        23 => KeyId::K24,
        24 => KeyId::K25,
        25 => KeyId::K26,
        26 => KeyId::K27,
        27 => KeyId::K28,
        28 => KeyId::K29,
        29 => KeyId::K30,
        30 => KeyId::K31,
        31 => KeyId::K32,
        32 => KeyId::K33,
        33 => KeyId::K34,
        34 => KeyId::K35,
        35 => KeyId::K36,
        36 => KeyId::K37,
        37 => KeyId::K38,
        38 => KeyId::K39,
        39 => KeyId::K40,
        _ => KeyId::K1,
    }
}

pub open spec fn key_of_event(e: Event) -> Key {
    match e {
        Event::Down(k) => k,
        Event::Up(k) => k,
    }
}

pub open spec fn id_of_key(k: Key) -> KeyId {
    match k {
        Key::Left(id) => id,
        Key::Right(id) => id,
    }
}

/// Wire form of an event: bit 7 is set for a press, bit 6 for the left hand,
/// bits 5..0 hold the key's ordinal.
pub open spec fn event_byte(e: Event) -> u8 {
    let down: u8 = if e is Down { 1 } else { 0 };
    let left: u8 = if key_of_event(e) is Left { 1 } else { 0 };
    ((down << 7u8) | (left << 6u8) | key_ordinal(id_of_key(key_of_event(e)))) as u8
}

/// The event that a byte stands for, read with the layout of `event_byte`.
pub open spec fn byte_event(b: u8) -> Event {
    let id = key_id_of(b & 0x3fu8);
    let key = if b & 0x40u8 != 0 { Key::Left(id) } else { Key::Right(id) };
    if b & 0x80u8 != 0 { Event::Down(key) } else { Event::Up(key) }
}

fn ordinal(id: KeyId) -> (r: u8)
    ensures
        r == key_ordinal(id),
        r < 64,
{
    match id {
        KeyId::K1 => 0,
        KeyId::K2 => 1,
        KeyId::K3 => 2,
        KeyId::K4 => 3,
        KeyId::K5 => 4,
        KeyId::K6 => 5,
        KeyId::K7 => 6,
        KeyId::K8 => 7,
        KeyId::K9 => 8,
        KeyId::K10 => 9,
        KeyId::K11 => 10,
        KeyId::K12 => 11,
        KeyId::K13 => 12,
        KeyId::K14 => 13,
        KeyId::K15 => 14,
        KeyId::K16 => 15,
        KeyId::K17 => 16,
        KeyId::K18 => 17,
        KeyId::K19 => 18,
        KeyId::K20 => 19,
        KeyId::K21 => 20,
        KeyId::K22 => 21,
        KeyId::K23 => 22,
        KeyId::K24 => 23,
        KeyId::K25 => 24,
        KeyId::K26 => 25,
        KeyId::K27 => 26,
        KeyId::K28 => 27,
        KeyId::K29 => 28,
        KeyId::K30 => 29,
        KeyId::K31 => 30,
        KeyId::K32 => 31,
        KeyId::K33 => 32,
        KeyId::K34 => 33,
        KeyId::K35 => 34,
        KeyId::K36 => 35,
        KeyId::K37 => 36,
        KeyId::K38 => 37,
        KeyId::K39 => 38,
        KeyId::K40 => 39,
    }
}

fn id_from_ordinal(n: u8) -> (r: KeyId)
    ensures
        r == key_id_of(n),
{
    match n {
        0 => KeyId::K1,
        1 => KeyId::K2,
        2 => KeyId::K3,
        3 => KeyId::K4,
        4 => KeyId::K5,
        5 => KeyId::K6,
        6 => KeyId::K7,
        7 => KeyId::K8,
        8 => KeyId::K9,
        9 => KeyId::K10,
        10 => KeyId::K11,
        11 => KeyId::K12,
        12 => KeyId::K13,
        13 => KeyId::K14,
        14 => KeyId::K15,
        15 => KeyId::K16,
        16 => KeyId::K17,
        17 => KeyId::K18,
        18 => KeyId::K19,
        19 => KeyId::K20,
        20 => KeyId::K21,
        21 => KeyId::K22,
        22 => KeyId::K23,
        23 => KeyId::K24,
        24 => KeyId::K25,
        25 => KeyId::K26,
        26 => KeyId::K27,
        27 => KeyId::K28,
        28 => KeyId::K29,
        29 => KeyId::K30,
        30 => KeyId::K31,
        31 => KeyId::K32,
        32 => KeyId::K33,
        33 => KeyId::K34,
        34 => KeyId::K35,
        35 => KeyId::K36,
        36 => KeyId::K37,
        37 => KeyId::K38,
        38 => KeyId::K39,
        39 => KeyId::K40,
        _ => KeyId::K1,
    }
}

proof fn lemma_byte_fields(d: u8, l: u8, o: u8)
    requires
        d < 2,
        l < 2,
        o < 64,
    ensures
        (((d << 7u8) | (l << 6u8) | o) & 0x80u8 != 0) == (d == 1),
        (((d << 7u8) | (l << 6u8) | o) & 0x40u8 != 0) == (l == 1),
        ((d << 7u8) | (l << 6u8) | o) & 0x3fu8 == o,
{
    assert((((d << 7u8) | (l << 6u8) | o) & 0x80u8 != 0) == (d == 1)) by (bit_vector)
        requires d < 2, l < 2, o < 64;
    assert((((d << 7u8) | (l << 6u8) | o) & 0x40u8 != 0) == (l == 1)) by (bit_vector)
        requires d < 2, l < 2, o < 64;
    assert(((d << 7u8) | (l << 6u8) | o) & 0x3fu8 == o) by (bit_vector)
        requires d < 2, l < 2, o < 64;
}

impl From<Key> for KeyId {
    fn from(value: Key) -> (r: KeyId) {
        match value {
            Key::Left(id) => id,
            Key::Right(id) => id,
        }
    }
}

impl vstd::std_specs::convert::FromSpecImpl<Key> for KeyId {
    open spec fn obeys_from_spec() -> bool {
        true
    }

    open spec fn from_spec(v: Key) -> KeyId {
        id_of_key(v)
    }
}

impl From<Event> for Key {
    fn from(value: Event) -> (r: Key) {
        match value {
            Event::Down(key) => key,
            Event::Up(key) => key,
        }
    }
}

impl vstd::std_specs::convert::FromSpecImpl<Event> for Key {
    open spec fn obeys_from_spec() -> bool {
        true
    }

    open spec fn from_spec(v: Event) -> Key {
        key_of_event(v)
    }
}

impl From<Pressed> for Key {
    fn from(value: Pressed) -> (r: Key) {
        value.0
    }
}

impl vstd::std_specs::convert::FromSpecImpl<Pressed> for Key {
    open spec fn obeys_from_spec() -> bool {
        true
    }

    open spec fn from_spec(v: Pressed) -> Key {
        v.0
    }
}

/// Encodes an event into its one-byte wire form.
impl From<Event> for u8 {
    fn from(value: Event) -> (r: u8) {
        let is_down: u8 = if matches!(value, Event::Down(_)) { 1 } else { 0 };
        let key = Key::from(value);
        let is_left: u8 = if matches!(key, Key::Left(_)) { 1 } else { 0 };
        let o = ordinal(KeyId::from(key));
        assert(o & 0x3fu8 == o) by (bit_vector)
            requires
                o < 64,
        ;
        is_down << 7u8 | is_left << 6u8 | (o & 0x3fu8)
    }
}

impl vstd::std_specs::convert::FromSpecImpl<Event> for u8 {
    open spec fn obeys_from_spec() -> bool {
        true
    }

    open spec fn from_spec(v: Event) -> u8 {
        event_byte(v)
    }
}

/// Decodes a byte into an event. Bits 7 and 6 give direction and hand; an
/// ordinal in bits 5..0 that names no key identity decodes as the first one.
impl From<u8> for Event {
    fn from(value: u8) -> (r: Event) {
        let is_down = (value & 0x80u8) != 0;
        let is_left = (value & 0x40u8) != 0;
        let key_id = id_from_ordinal(value & 0x3fu8);
        let key = if is_left {
            Key::Left(key_id)
        } else {
            Key::Right(key_id)
        };
        if is_down {
            Event::Down(key)
        } else {
            Event::Up(key)
        }
    }
}

impl vstd::std_specs::convert::FromSpecImpl<u8> for Event {
    open spec fn obeys_from_spec() -> bool {
        true
    }

    open spec fn from_spec(v: u8) -> Event {
        byte_event(v)
    }
}

/// The event log: raw events in arrival order, at most `STACK_SIZE` of them.
#[verifier::external_body]
pub struct EventLog {
    events: heapless::Vec<Event, STACK_SIZE>,
}

/// The events that a log holds, oldest first.
pub uninterp spec fn log_events(log: EventLog) -> Seq<Event>;

/// A resolved chord: its keys in the order of their first press, at most
/// `PRESS_SIZE` of them.
#[verifier::external_body]
pub struct Gesture {
    keys: heapless::Vec<Pressed, PRESS_SIZE>,
}

/// The keys that a gesture holds, in order.
pub uninterp spec fn gesture_keys(g: Gesture) -> Seq<Pressed>;

/// Relies on heapless::Vec::new: a new vector is empty.
#[verifier::external_body]
fn empty_log() -> (r: EventLog)
    ensures
        log_events(r) == Seq::<Event>::empty(),
{
    EventLog { events: heapless::Vec::new() }
}

/// Relies on heapless::Vec::push: below capacity the item is appended,
/// at capacity it is handed back and the vector is left as it was.
#[verifier::external_body]
fn log_append(log: &mut EventLog, e: Event) -> (r: Result<(), Event>)
    ensures
        log_events(*old(log)).len() < STACK_SIZE ==> r is Ok && log_events(*final(log))
            == log_events(*old(log)).push(e),
        log_events(*old(log)).len() >= STACK_SIZE ==> r is Err && r->Err_0 == e,
        log_events(*old(log)).len() >= STACK_SIZE ==> log_events(*final(log)) == log_events(*old(log)),
{
    log.events.push(e)
}

/// Relies on heapless::Vec::clear: the vector is left empty.
#[verifier::external_body]
fn log_wipe(log: &mut EventLog)
    ensures
        log_events(*final(log)) == Seq::<Event>::empty(),
{
    log.events.clear()
}

/// Relies on heapless::Vec::as_slice: the slice shows the contents, whose
/// length never exceeds the capacity.
#[verifier::external_body]
fn log_slice(log: &EventLog) -> (r: &[Event])
    ensures
        r@ == log_events(*log),
        r@.len() <= STACK_SIZE,
{
    log.events.as_slice()
}

/// Relies on heapless::Vec::new: a new vector is empty.
#[verifier::external_body]
fn empty_gesture() -> (r: Gesture)
    ensures
        gesture_keys(r) == Seq::<Pressed>::empty(),
{
    Gesture { keys: heapless::Vec::new() }
}

/// Relies on heapless::Vec::push: below capacity the item is appended,
/// at capacity it is handed back and the vector is left as it was.
#[verifier::external_body]
fn gesture_append(g: &mut Gesture, p: Pressed) -> (r: Result<(), Pressed>)
    ensures
        gesture_keys(*old(g)).len() < PRESS_SIZE ==> r is Ok && gesture_keys(*final(g))
            == gesture_keys(*old(g)).push(p),
        gesture_keys(*old(g)).len() >= PRESS_SIZE ==> r is Err && r->Err_0 == p,
        gesture_keys(*old(g)).len() >= PRESS_SIZE ==> gesture_keys(*final(g)) == gesture_keys(*old(g)),
{
    g.keys.push(p)
}

/// Relies on heapless::Vec::clear: the vector is left empty.
#[verifier::external_body]
fn gesture_wipe(g: &mut Gesture)
    ensures
        gesture_keys(*final(g)) == Seq::<Pressed>::empty(),
{
    g.keys.clear()
}

/// Relies on heapless::Vec::as_slice: the slice shows the contents, whose
/// length never exceeds the capacity.
#[verifier::external_body]
fn gesture_slice(g: &Gesture) -> (r: &[Pressed])
    ensures
        r@ == gesture_keys(*g),
        r@.len() <= PRESS_SIZE,
{
    g.keys.as_slice()
}

impl EventLog {
    /// An empty log.
    pub fn new() -> (r: EventLog)
        ensures
            log_events(r) == Seq::<Event>::empty(),
    {
        empty_log()
    }

    /// Appends an event. A full log rejects it, hands it back and is left
    /// unchanged.
    pub fn push(&mut self, e: Event) -> (r: Result<(), Event>)
        ensures
            log_events(*old(self)).len() < STACK_SIZE <==> r is Ok,
            r is Ok ==> log_events(*final(self)) == log_events(*old(self)).push(e),
            r is Err ==> r is Err && r->Err_0 == e && log_events(*final(self)) == log_events(
                *old(self),
            ),
    {
        if self.len() >= STACK_SIZE {
            Err(e)
        } else {
            log_append(self, e)
        }
    }

    /// Removes every event.
    pub fn clear(&mut self)
        ensures
            log_events(*final(self)) == Seq::<Event>::empty(),
    {
        log_wipe(self)
    }

    /// The events, oldest first.
    pub fn as_slice(&self) -> (r: &[Event])
        ensures
            r@ == log_events(*self),
            r@.len() <= STACK_SIZE,
    {
        log_slice(self)
    }

    pub fn len(&self) -> (r: usize)
        ensures
            r == log_events(*self).len(),
            r <= STACK_SIZE,
    {
        log_slice(self).len()
    }

    pub fn is_empty(&self) -> (r: bool)
        ensures
            r == (log_events(*self).len() == 0),
    {
        self.len() == 0
    }

    /// The oldest event, if any.
    pub fn first(&self) -> (r: Option<&Event>)
        ensures
            log_events(*self).len() == 0 ==> r is None,
            log_events(*self).len() > 0 ==> r == Some(&log_events(*self)[0]),
    {
        let s = log_slice(self);
        if s.len() == 0 {
            None
        } else {
            Some(&s[0])
        }
    }
}

impl Gesture {
    /// An empty gesture: no chord resolved.
    pub fn new() -> (r: Gesture)
        ensures
            gesture_keys(r) == Seq::<Pressed>::empty(),
    {
        empty_gesture()
    }

    /// Appends a key. A full gesture rejects it, hands it back and is left
    /// unchanged.
    pub fn push(&mut self, p: Pressed) -> (r: Result<(), Pressed>)
        ensures
            gesture_keys(*old(self)).len() < PRESS_SIZE <==> r is Ok,
            r is Ok ==> gesture_keys(*final(self)) == gesture_keys(*old(self)).push(p),
            r is Err ==> r is Err && r->Err_0 == p && gesture_keys(*final(self)) == gesture_keys(
                *old(self),
            ),
    {
        if self.len() >= PRESS_SIZE {
            Err(p)
        } else {
            gesture_append(self, p)
        }
    }

    /// Removes every key.
    pub fn clear(&mut self)
        ensures
            gesture_keys(*final(self)) == Seq::<Pressed>::empty(),
    {
        gesture_wipe(self)
    }

    /// The keys, in order.
    pub fn as_slice(&self) -> (r: &[Pressed])
        ensures
            r@ == gesture_keys(*self),
            r@.len() <= PRESS_SIZE,
    {
        gesture_slice(self)
    }

    pub fn len(&self) -> (r: usize)
        ensures
            r == gesture_keys(*self).len(),
            r <= PRESS_SIZE,
    {
        gesture_slice(self).len()
    }

    pub fn is_empty(&self) -> (r: bool)
        ensures
            r == (gesture_keys(*self).len() == 0),
    {
        self.len() == 0
    }
}

/// Some event at position `i` or later releases `k`.
pub open spec fn released_from(s: Seq<Event>, i: int, k: Key) -> bool {
    exists|j: int| i <= j < s.len() && s[j] == Event::Up(k)
}

/// The scan over `s[i..]` with accumulator `acc`. A release of the first
/// accumulated key seals the chord; a press of a key not yet accumulated
/// joins it when a release of that key follows in the log.
pub open spec fn scan(s: Seq<Event>, i: int, acc: Seq<Pressed>) -> Seq<Pressed>
    decreases s.len() - i,
{
    if i < 0 || i >= s.len() {
        acc
    } else if acc.len() > 0 && s[i] == Event::Up(acc[0].0) {
        acc
    } else {
        let next = match s[i] {
            Event::Down(k) => if !acc.contains(Pressed(k)) && released_from(s, i, k) {
                acc.push(Pressed(k))
            } else {
                acc
            },
            Event::Up(_) => acc,
        };
        scan(s, i + 1, next)
    }
}

/// The chord that a log resolves to: empty when the log is empty, starts
/// with a release, or its first pressed key has not completed yet.
pub open spec fn resolved(s: Seq<Event>) -> Seq<Pressed> {
    if s.len() == 0 || s[0] is Up {
        Seq::empty()
    } else {
        let acc = scan(s, 0, Seq::empty());
        if acc.len() > 0 && acc[0] == Pressed(key_of_event(s[0])) {
            acc
        } else {
            Seq::empty()
        }
    }
}

/// Holds of the events whose key is not in `g`.
pub open spec fn unresolved(g: Seq<Pressed>) -> spec_fn(Event) -> bool {
    |e: Event| !g.contains(Pressed(key_of_event(e)))
}

/// The log after resolution: cleared when it started with a release, as it
/// was when no chord resolved, else without every event of a resolved key,
/// the others in their order.
pub open spec fn remaining(s: Seq<Event>) -> Seq<Event> {
    let g = resolved(s);
    if s.len() > 0 && s[0] is Up {
        Seq::empty()
    } else if g.len() == 0 {
        s
    } else {
        s.filter(unresolved(g))
    }
}

/// The keys pressed (or released) in `s`, in order.
spec fn keys_with(s: Seq<Event>, down: bool) -> Seq<Key>
    decreases s.len(),
{
    if s.len() == 0 {
        Seq::empty()
    } else {
        let r = keys_with(s.drop_last(), down);
        if (s.last() is Down) == down {
            r.push(key_of_event(s.last()))
        } else {
            r
        }
    }
}

proof fn lemma_keys_with_len(s: Seq<Event>)
    ensures
        keys_with(s, true).len() + keys_with(s, false).len() == s.len(),
    decreases s.len(),
{
    if s.len() > 0 {
        lemma_keys_with_len(s.drop_last());
    }
}

proof fn lemma_keys_with_contains(s: Seq<Event>, j: int)
    requires
        0 <= j < s.len(),
    ensures
        keys_with(s, s[j] is Down).contains(key_of_event(s[j])),
    decreases s.len(),
{
    let down = s[j] is Down;
    if j == s.len() - 1 {
        assert(keys_with(s, down).last() == key_of_event(s[j]));
    } else {
        lemma_keys_with_contains(s.drop_last(), j);
        let r = keys_with(s.drop_last(), down);
        let i = choose|i: int| 0 <= i < r.len() && r[i] == key_of_event(s[j]);
        assert(keys_with(s, down)[i] == key_of_event(s[j]));
    }
}

/// Distinct keys that each have a press and a release in `s` are at most
/// half as many as the events of `s`.
proof fn lemma_completed_keys_bound(s: Seq<Event>, a: Seq<Pressed>)
    requires
        a.no_duplicates(),
        forall|x: int| 0 <= x < a.len() ==> s.contains(Event::Down(#[trigger] a[x].0)),
        forall|x: int| 0 <= x < a.len() ==> s.contains(Event::Up(#[trigger] a[x].0)),
    ensures
        2 * a.len() <= s.len(),
{
    broadcast use vstd::seq_lib::group_seq_properties, vstd::set::group_set_axioms;

    let ka = a.map_values(|p: Pressed| p.0);
    assert(ka.no_duplicates()) by {
        assert forall|x: int, y: int| 0 <= x < ka.len() && 0 <= y < ka.len() && x != y implies ka[x]
            != ka[y] by {
            if ka[x] == ka[y] {
                assert(a[x] == a[y]);
            }
        }
    }
    ka.unique_seq_to_set();
    lemma_keys_with_len(s);
    let kd = keys_with(s, true);
    let ku = keys_with(s, false);
    assert(ka.to_set().subset_of(kd.to_set())) by {
        assert forall|k: Key| ka.to_set().contains(k) implies kd.to_set().contains(k) by {
            let x = choose|x: int| 0 <= x < ka.len() && ka[x] == k;
            assert(s.contains(Event::Down(a[x].0)));
            let j = choose|j: int| 0 <= j < s.len() && s[j] == Event::Down(a[x].0);
            lemma_keys_with_contains(s, j);
        }
    }
    assert(ka.to_set().subset_of(ku.to_set())) by {
        assert forall|k: Key| ka.to_set().contains(k) implies ku.to_set().contains(k) by {
            let x = choose|x: int| 0 <= x < ka.len() && ka[x] == k;
            assert(s.contains(Event::Up(a[x].0)));
            let j = choose|j: int| 0 <= j < s.len() && s[j] == Event::Up(a[x].0);
            lemma_keys_with_contains(s, j);
        }
    }
    kd.lemma_cardinality_of_set();
    ku.lemma_cardinality_of_set();
    vstd::set_lib::lemma_len_subset(ka.to_set(), kd.to_set());
    vstd::set_lib::lemma_len_subset(ka.to_set(), ku.to_set());
}

/// Joining a completed key that is not yet in the chord keeps the chord's
/// keys distinct and completed, and within the capacity of a gesture.
proof fn lemma_join_completed(s: Seq<Event>, g: Seq<Pressed>, k: Key)
    requires
        s.len() <= STACK_SIZE,
        g.no_duplicates(),
        !g.contains(Pressed(k)),
        s.contains(Event::Down(k)),
        s.contains(Event::Up(k)),
        forall|x: int| 0 <= x < g.len() ==> s.contains(Event::Down(#[trigger] g[x].0)),
        forall|x: int| 0 <= x < g.len() ==> s.contains(Event::Up(#[trigger] g[x].0)),
    ensures
        g.len() < PRESS_SIZE,
        g.push(Pressed(k)).no_duplicates(),
        forall|x: int|
            0 <= x < g.len() + 1 ==> s.contains(Event::Down(#[trigger] g.push(Pressed(k))[x].0)),
        forall|x: int|
            0 <= x < g.len() + 1 ==> s.contains(Event::Up(#[trigger] g.push(Pressed(k))[x].0)),
{
    let g2 = g.push(Pressed(k));
    assert forall|x: int| 0 <= x < g2.len() implies s.contains(Event::Down(#[trigger] g2[x].0))
        && s.contains(Event::Up(g2[x].0)) by {
        if x < g.len() {
            assert(g2[x] == g[x]);
        }
    }
    assert forall|x: int, y: int| 0 <= x < g2.len() && 0 <= y < g2.len() && x != y implies g2[x]
        != g2[y] by {
        if x < g.len() && y < g.len() {
            assert(g2[x] == g[x] && g2[y] == g[y]);
        } else if x < g.len() {
            assert(g.contains(g2[x]));
        } else if y < g.len() {
            assert(g.contains(g2[y]));
        }
    }
    lemma_completed_keys_bound(s, g2);
}

fn holds_key(g: &[Pressed], k: Key) -> (r: bool)
    ensures
        r == g@.contains(Pressed(k)),
{
    let mut i: usize = 0;
    while i < g.len()
        invariant
            0 <= i <= g.len(),
            forall|x: int| 0 <= x < i ==> g@[x] != Pressed(k),
        decreases g.len() - i,
    {
        if g[i] == Pressed(k) {
            return true;
        }
        i = i + 1;
    }
    false
}

fn released_at_or_after(s: &[Event], i: usize, k: Key) -> (r: bool)
    ensures
        r == released_from(s@, i as int, k),
{
    let mut j: usize = i;
    while j < s.len()
        invariant
            i <= j,
            forall|x: int| i <= x < j && x < s@.len() ==> s@[x] != Event::Up(k),
        decreases s.len() - j,
    {
        if s[j] == Event::Up(k) {
            return true;
        }
        j = j + 1;
    }
    false
}

/// Resolves the chord at the head of the log. The keys of a resolved chord
/// leave the log, each with all of its events; an unfinished chord leaves
/// the log as it was; a log that starts with a release is cleared.
pub fn chord(stack: &mut EventLog) -> (pressed: Gesture)
    ensures
        gesture_keys(pressed) == resolved(log_events(*old(stack))),
        log_events(*final(stack)) == remaining(log_events(*old(stack))),
{
    let ghost s0 = log_events(*stack);
    let mut pressed = Gesture::new();
    let s = stack.as_slice();
    let n = s.len();
    if n == 0 {
        return pressed;
    }
    let root = match s[0] {
        Event::Up(_) => {
            // a log never starts with a release: start over
            stack.clear();
            return pressed;
        },
        Event::Down(k) => k,
    };
    let mut i: usize = 0;
    while i < n
        invariant_except_break
            0 <= i <= n,
            n == s@.len(),
            s@ == s0,
            s0.len() <= STACK_SIZE,
            scan(s0, 0, Seq::empty()) == scan(s0, i as int, gesture_keys(pressed)),
            gesture_keys(pressed).no_duplicates(),
            forall|x: int|
                0 <= x < gesture_keys(pressed).len() ==> s0.contains(
                    Event::Down(#[trigger] gesture_keys(pressed)[x].0),
                ),
            forall|x: int|
                0 <= x < gesture_keys(pressed).len() ==> s0.contains(
                    Event::Up(#[trigger] gesture_keys(pressed)[x].0),
                ),
        ensures
            gesture_keys(pressed) == scan(s0, 0, Seq::empty()),
        decreases n - i,
    {
        let ghost before = gesture_keys(pressed);
        let acc = pressed.as_slice();
        if acc.len() > 0 && s[i] == Event::Up(acc[0].0) {
            break;
        }
        if let Event::Down(k) = s[i] {
            if !holds_key(acc, k) && released_at_or_after(s, i, k) {
                proof {
                    let j = choose|j: int| i <= j < s0.len() && s0[j] == Event::Up(k);
                    assert(s0.contains(Event::Up(k)));
                    assert(s0.contains(Event::Down(k)));
                    lemma_join_completed(s0, gesture_keys(pressed), k);
                }
                let _ = pressed.push(Pressed(k));
            }
        }
        proof {
            let next = match s0[i as int] {
                Event::Down(k) => if !before.contains(Pressed(k)) && released_from(s0, i as int, k) {
                    before.push(Pressed(k))
                } else {
                    before
                },
                Event::Up(_) => before,
            };
            assert(gesture_keys(pressed) == next);
            assert(scan(s0, i as int, before) == scan(s0, i + 1, next));
        }
        i = i + 1;
    }
    let acc = pressed.as_slice();
    if acc.len() == 0 {
        return pressed;
    }
    if acc[0] != Pressed(root) {
        // the first completed key is not the one that opened the log
        pressed.clear();
        return pressed;
    }
    let ghost g = gesture_keys(pressed);
    let ghost keep = unresolved(g);
    let mut kept = EventLog::new();
    let mut j: usize = 0;
    while j < n
        invariant
            0 <= j <= n,
            n == s@.len(),
            s@ == s0,
            s0.len() <= STACK_SIZE,
            acc@ == g,
            keep == unresolved(g),
            log_events(kept) == s0.subrange(0, j as int).filter(keep),
            log_events(kept).len() <= j,
        decreases n - j,
    {
        let e = s[j];
        let key = Key::from(e);
        let ghost sub = s0.subrange(0, j + 1);
        proof {
            assert(sub =~= s0.subrange(0, j as int).push(e));
            s0.subrange(0, j as int).lemma_filter_push(e, keep);
        }
        if !holds_key(acc, key) {
            let _ = kept.push(e);
        }
        j = j + 1;
    }
    proof {
        assert(s0.subrange(0, n as int) =~= s0);
    }
    *stack = kept;
    pressed
}

/// Decoding the encoding of any event gives back that event.
pub proof fn lemma_event_round_trip(e: Event)
    ensures
        byte_event(event_byte(e)) == e,
{
    let down: u8 = if e is Down { 1 } else { 0 };
    let left: u8 = if key_of_event(e) is Left { 1 } else { 0 };
    let id = id_of_key(key_of_event(e));
    lemma_byte_fields(down, left, key_ordinal(id));
    assert(key_id_of(key_ordinal(id)) == id);
}

} // verus!
