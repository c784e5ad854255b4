//! The input queue between the keyboard interrupt and the foreground loop,
//! and the step that turns a raw scancode into a queued character.
use pc_keyboard::layouts::Us104Key;
use pc_keyboard::{DecodedKey, HandleControl, KeyEvent, Keyboard, ScancodeSet1};
use std::collections::VecDeque;
use vstd::prelude::*;

verus! {

#[verifier::external_type_specification]
#[verifier::external_body]
pub struct ExKeyEvent(KeyEvent);

/// The kernel's scancode decoder: pc_keyboard's `Keyboard` for the US
/// 104-key layout and scancode set 1, with control combinations left as
/// letters. It keeps state across bytes (partial sequences, modifiers).
#[verifier::external_body]
pub struct ScancodeDecoder {
    keyboard: Keyboard<Us104Key, ScancodeSet1>,
}

impl ScancodeDecoder {
    /// Relies on pc_keyboard's `Keyboard::new`: a decoder in its initial
    /// state.
    #[verifier::external_body]
    pub fn new() -> (r: Self) {
        ScancodeDecoder {
            keyboard: Keyboard::new(ScancodeSet1::new(), Us104Key, HandleControl::Ignore),
        }
    }

    /// Relies on pc_keyboard's `Keyboard::add_byte`: feeds one byte to the
    /// decoder, which may complete a key event. A malformed sequence yields
    /// no event. The result depends on the decoder's state, so nothing is
    /// promised of it.
    #[verifier::external_body]
    fn feed_byte(&mut self, byte: u8) -> (r: Option<KeyEvent>) {
        match self.keyboard.add_byte(byte) {
            Ok(event) => event,
            Err(_) => None,
        }
    }

    /// Relies on pc_keyboard's `Keyboard::process_keyevent`: turns a key
    /// event into a character when it stands for one (raw keys give
    /// `None`). It depends on the modifier state kept in the decoder.
    #[verifier::external_body]
    fn decode_event(&mut self, event: KeyEvent) -> (r: Option<char>) {
        match self.keyboard.process_keyevent(event) {
            Some(DecodedKey::Unicode(c)) => Some(c),
            Some(DecodedKey::RawKey(_)) => None,
            None => None,
        }
    }
}

/// First-in, first-out queue of decoded characters.
pub struct KeyQueue {
    keys: VecDeque<char>,
}

impl View for KeyQueue {
    type V = Seq<char>;

    closed spec fn view(&self) -> Seq<char> {
        self.keys@
    }
}

impl KeyQueue {
    pub fn new() -> (q: Self)
        ensures
            q@ == Seq::<char>::empty(),
    {
        KeyQueue { keys: VecDeque::new() }
    }

    /// Appends a character at the back.
    pub fn push(&mut self, c: char)
        ensures
            final(self)@ == old(self)@.push(c),
    {
        self.keys.push_back(c);
    }

    /// Removes the character at the front, if any.
    pub fn pop(&mut self) -> (r: Option<char>)
        ensures
            old(self)@.len() == 0 ==> r is None && final(self)@ == old(self)@,
            old(self)@.len() > 0 ==> r == Some(old(self)@[0]) && final(self)@ == old(self)@.drop_first(),
    {
        self.keys.pop_front()
    }

    pub fn len(&self) -> (r: usize)
        ensures
            r == self@.len(),
    {
        self.keys.len()
    }

    pub fn is_empty(&self) -> (r: bool)
        ensures
            r == (self@.len() == 0),
    {
        self.keys.len() == 0
    }
}

/// Queues the outcome of decoding one scancode: a character when there is one.
pub fn enqueue_decoded(queue: &mut KeyQueue, decoded: Option<char>)
    ensures
        final(queue)@ == (match decoded {
            Some(c) => old(queue)@.push(c),
            None => old(queue)@,
        }),
{
    if let Some(c) = decoded {
        queue.push(c);
    }
}

/// Feeds a scancode to the decoder and queues the character it completes,
/// if any.
pub fn add_scancode(decoder: &mut ScancodeDecoder, queue: &mut KeyQueue, scancode: u8)
    ensures
        final(queue)@ == old(queue)@ || exists|c: char| final(queue)@ == old(queue)@.push(c),
{
    let decoded = match decoder.feed_byte(scancode) {
        Some(event) => decoder.decode_event(event),
        None => None,
    };
    enqueue_decoded(queue, decoded);
}

/// Takes the oldest queued character.
pub fn pop_key(queue: &mut KeyQueue) -> (r: Option<char>)
    ensures
        old(queue)@.len() == 0 ==> r is None && final(queue)@ == old(queue)@,
        old(queue)@.len() > 0 ==> r == Some(old(queue)@[0]) && final(queue)@ == old(queue)@.drop_first(),
{
    queue.pop()
}

/// The queue after pushing each character of `s` in turn.
pub open spec fn push_all(q: Seq<char>, s: Seq<char>) -> Seq<char>
    decreases s.len(),
{
    if s.len() == 0 {
        q
    } else {
        push_all(q, s.drop_last()).push(s.last())
    }
}

/// The characters that `n` pops return, in order, starting from queue `q`.
pub open spec fn pop_n(q: Seq<char>, n: nat) -> Seq<char>
    decreases n,
{
    if n == 0 || q.len() == 0 {
        Seq::empty()
    } else {
        seq![q[0]].add(pop_n(q.drop_first(), (n - 1) as nat))
    }
}

proof fn lemma_push_all(q: Seq<char>, s: Seq<char>)
    ensures
        push_all(q, s) == q + s,
    decreases s.len(),
{
    if s.len() > 0 {
        lemma_push_all(q, s.drop_last());
        assert(q + s =~= (q + s.drop_last()).push(s.last()));
    }
}

proof fn lemma_pop_n_prefix(q: Seq<char>, n: nat)
    requires
        n <= q.len(),
    ensures
        pop_n(q, n) == q.take(n as int),
    decreases n,
{
    if n == 0 {
        assert(q.take(0) =~= Seq::<char>::empty());
    } else {
        lemma_pop_n_prefix(q.drop_first(), (n - 1) as nat);
        assert(seq![q[0]].add(q.drop_first().take(n - 1)) =~= q.take(n as int));
    }
}

/// Characters leave the queue in the order they entered it: after pushing
/// `s` onto an empty queue, popping `k` times yields the first `k`
/// characters of `s`, and popping until empty yields exactly `s`.
pub proof fn lemma_queue_fifo(s: Seq<char>, k: nat)
    requires
        k <= s.len(),
    ensures
        pop_n(push_all(Seq::empty(), s), k) == s.take(k as int),
        pop_n(push_all(Seq::empty(), s), s.len()) == s,
{
    lemma_push_all(Seq::empty(), s);
    assert(Seq::<char>::empty() + s =~= s);
    lemma_pop_n_prefix(s, k);
    lemma_pop_n_prefix(s, s.len());
    assert(s.take(s.len() as int) =~= s);
}

} // verus!
