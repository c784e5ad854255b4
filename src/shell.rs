//! The command line: editing the line as keys arrive, and reading a
//! finished line as a command. Echoing and running the command are the
//! caller's part.
use crate::vga::{color_of, Color};
use vstd::prelude::*;

verus! {

/// Whether `c` is white space in Unicode's sense.
pub uninterp spec fn is_space(c: char) -> bool;

/// Relies on `char::is_whitespace`: whether the character has Unicode's
/// White_Space property, which depends on the character alone.
#[verifier::external_body]
fn space(c: char) -> (r: bool)
    ensures
        r == is_space(c),
{
    c.is_whitespace()
}

/// `s` without its leading white space.
pub open spec fn trim_start(s: Seq<char>) -> Seq<char>
    decreases s.len(),
{
    if s.len() > 0 && is_space(s[0]) {
        trim_start(s.drop_first())
    } else {
        s
    }
}

/// `s` without its trailing white space.
pub open spec fn trim_end(s: Seq<char>) -> Seq<char>
    decreases s.len(),
{
    if s.len() > 0 && is_space(s.last()) {
        trim_end(s.drop_last())
    } else {
        s
    }
}

pub open spec fn trimmed(s: Seq<char>) -> Seq<char> {
    trim_end(trim_start(s))
}

/// The words of `s`, with `cur` the part of a word already read.
pub open spec fn split_words(s: Seq<char>, cur: Seq<char>) -> Seq<Seq<char>>
    decreases s.len(),
{
    if s.len() == 0 {
        if cur.len() == 0 {
            Seq::empty()
        } else {
            seq![cur]
        }
    } else if is_space(s[0]) {
        (if cur.len() == 0 {
            Seq::empty()
        } else {
            seq![cur]
        }) + split_words(s.drop_first(), Seq::empty())
    } else {
        split_words(s.drop_first(), cur.push(s[0]))
    }
}

/// The maximal runs of non-space characters of `s`, in order.
pub open spec fn words(s: Seq<char>) -> Seq<Seq<char>> {
    split_words(s, Seq::empty())
}

pub open spec fn is_digit(c: char) -> bool {
    '0' <= c && c <= '9'
}

/// The number a string of decimal digits stands for.
pub open spec fn digits_value(d: Seq<char>) -> int
    decreases d.len(),
{
    if d.len() == 0 {
        0
    } else {
        digits_value(d.drop_last()) * 10 + (d.last() as int - '0' as int)
    }
}

/// The digits of a number: the text after an optional leading `+`.
pub open spec fn digits_part(w: Seq<char>) -> Seq<char> {
    if w.len() > 0 && w[0] == '+' {
        w.drop_first()
    } else {
        w
    }
}

pub open spec fn all_digits(d: Seq<char>) -> bool {
    forall|i: int| 0 <= i < d.len() ==> is_digit(#[trigger] d[i])
}

/// Reading a byte-sized decimal number: an optional `+`, then one or more
/// digits whose value fits in a byte.
pub open spec fn parse_u8_spec(w: Seq<char>) -> Option<u8> {
    let d = digits_part(w);
    if d.len() > 0 && all_digits(d) && digits_value(d) <= 255 {
        Some(digits_value(d) as u8)
    } else {
        None
    }
}

/// What a finished line asks for.
#[derive(Debug, Clone, Copy, PartialEq, Eq, Structural)]
pub enum Command {
    /// A blank line.
    Empty,
    /// `help`: list the commands.
    Help,
    /// `ver`: show the version.
    Version,
    /// `cls`: clear the screen.
    Clear,
    /// `uptime`: show the tick count.
    Uptime,
    /// `free`: show the heap usage.
    Free,
    /// `color` alone: explain the color command.
    ColorHelp,
    /// `color <fg> <bg>` with two color numbers below 16.
    SetColor(Color, Color),
    /// `color <fg> <bg>` with a number that names no color.
    BadColor(u8, u8),
    /// A `color ` line of another shape: ignored.
    Ignored,
    /// Anything else.
    Unknown,
}

pub open spec fn is_color_line(t: Seq<char>) -> bool {
    t.len() >= 6 && t.take(6) == seq!['c', 'o', 'l', 'o', 'r', ' ']
}

/// The command that the trimmed line `t` stands for.
pub open spec fn command_of(t: Seq<char>) -> Command {
    if t.len() == 0 {
        Command::Empty
    } else if t == seq!['h', 'e', 'l', 'p'] {
        Command::Help
    } else if t == seq!['v', 'e', 'r'] {
        Command::Version
    } else if t == seq!['c', 'l', 's'] {
        Command::Clear
    } else if t == seq!['u', 'p', 't', 'i', 'm', 'e'] {
        Command::Uptime
    } else if t == seq!['f', 'r', 'e', 'e'] {
        Command::Free
    } else if t == seq!['c', 'o', 'l', 'o', 'r'] {
        Command::ColorHelp
    } else if is_color_line(t) {
        let ws = words(t);
        if ws.len() == 3 && parse_u8_spec(ws[1]) is Some && parse_u8_spec(ws[2]) is Some {
            let fg = parse_u8_spec(ws[1])->0;
            let bg = parse_u8_spec(ws[2])->0;
            if fg < 16 && bg < 16 {
                Command::SetColor(color_of(fg), color_of(bg))
            } else {
                Command::BadColor(fg, bg)
            }
        } else {
            Command::Ignored
        }
    } else {
        Command::Unknown
    }
}

/// What a key does to the line.
#[derive(Debug)]
pub enum InputEffect {
    /// The character was added to the line and is to be echoed.
    Echo(char),
    /// The last character was removed and is to be erased on screen.
    Erase,
    /// Nothing changed (a backspace on an empty line).
    Nothing,
    /// The line was finished: the command it stands for, and the trimmed
    /// line.
    Run(Command, Vec<char>),
}

/// Reads a byte-sized decimal number.
pub fn parse_u8(w: &Vec<char>) -> (r: Option<u8>)
    ensures
        r == parse_u8_spec(w@),
{
    let start: usize = if w.len() > 0 && w[0] == '+' {
        1
    } else {
        0
    };
    let ghost d = digits_part(w@);
    assert(d =~= w@.skip(start as int));
    if start >= w.len() {
        return None;
    }
    let mut v: u32 = 0;
    let mut i: usize = start;
    while i < w.len()
        invariant
            start <= i <= w@.len(),
            d == w@.skip(start as int),
            d == digits_part(w@),
            forall|k: int| 0 <= k < i - start ==> is_digit(#[trigger] d[k]),
            v as int == if digits_value(d.take(i - start)) < 256 {
                digits_value(d.take(i - start))
            } else {
                256
            },
        decreases w.len() - i,
    {
        let c = w[i];
        if !('0' <= c && c <= '9') {
            assert(d[i - start] == c);
            assert(!is_digit(d[i - start]));
            assert(!all_digits(d));
            return None;
        }
        let digit = (c as u32) - ('0' as u32);
        proof {
            let p = d.take(i - start);
            let q = d.take(i + 1 - start);
            assert(q.drop_last() =~= p);
            assert(q.last() == c);
            assert(digits_value(q) == digits_value(p) * 10 + digit);
            assert(digits_value(p) >= 0) by {
                lemma_digits_nonneg(p);
            }
        }
        v = v * 10 + digit;
        if v > 256 {
            v = 256;
        }
        i += 1;
    }
    assert(d.take(i - start) =~= d);
    if v <= 255 {
        Some(v as u8)
    } else {
        None
    }
}

proof fn lemma_digits_nonneg(d: Seq<char>)
    requires
        forall|i: int| 0 <= i < d.len() ==> is_digit(#[trigger] d[i]),
    ensures
        digits_value(d) >= 0,
    decreases d.len(),
{
    if d.len() > 0 {
        lemma_digits_nonneg(d.drop_last());
        assert(is_digit(d[d.len() - 1]));
    }
}

/// The words of `s`.
pub fn split_whitespace(s: &Vec<char>) -> (r: Vec<Vec<char>>)
    ensures
        r.deep_view() == words(s@),
{
    let mut out: Vec<Vec<char>> = Vec::new();
    let mut cur: Vec<char> = Vec::new();
    let mut i: usize = 0;
    assert(s@.skip(0) =~= s@);
    assert(out.deep_view() + split_words(s@, cur@) =~= words(s@));
    while i < s.len()
        invariant
            0 <= i <= s@.len(),
            words(s@) == out.deep_view() + split_words(s@.skip(i as int), cur@),
        decreases s.len() - i,
    {
        let c = s[i];
        let ghost rest = s@.skip(i as int);
        assert(rest.drop_first() =~= s@.skip(i + 1));
        assert(rest[0] == c);
        if space(c) {
            if cur.len() > 0 {
                let ghost old_out = out.deep_view();
                let ghost w = cur@;
                assert(cur.deep_view() =~= w);
                out.push(cur);
                cur = Vec::new();
                assert(out.deep_view() =~= old_out.push(w));
                assert(old_out + (seq![w] + split_words(s@.skip(i + 1), Seq::empty()))
                    =~= old_out.push(w) + split_words(s@.skip(i + 1), Seq::empty()));
            } else {
                assert(cur@ =~= Seq::<char>::empty());
                assert(Seq::<Seq<char>>::empty() + split_words(s@.skip(i + 1), Seq::empty())
                    =~= split_words(s@.skip(i + 1), Seq::empty()));
            }
        } else {
            cur.push(c);
        }
        i += 1;
    }
    assert(s@.skip(i as int) =~= Seq::<char>::empty());
    if cur.len() > 0 {
        let ghost old_out = out.deep_view();
        let ghost w = cur@;
        assert(cur.deep_view() =~= w);
        out.push(cur);
        assert(out.deep_view() =~= old_out.push(w));
        assert(old_out + seq![w] =~= old_out.push(w));
    } else {
        assert(out.deep_view() + Seq::<Seq<char>>::empty() =~= out.deep_view());
    }
    out
}

proof fn lemma_trim_start_skip(s: Seq<char>, i: int)
    requires
        0 <= i <= s.len(),
        forall|k: int| 0 <= k < i ==> is_space(#[trigger] s[k]),
    ensures
        trim_start(s) == trim_start(s.skip(i)),
    decreases i,
{
    if i > 0 {
        assert(s.skip(1) =~= s.drop_first());
        lemma_trim_start_skip(s.drop_first(), i - 1);
        assert(s.drop_first().skip(i - 1) =~= s.skip(i));
    } else {
        assert(s.skip(0) =~= s);
    }
}

proof fn lemma_trim_end_take(s: Seq<char>, j: int)
    requires
        0 <= j <= s.len(),
        forall|k: int| j <= k < s.len() ==> is_space(#[trigger] s[k]),
    ensures
        trim_end(s) == trim_end(s.take(j)),
    decreases s.len() - j,
{
    if j < s.len() {
        lemma_trim_end_take(s.drop_last(), j);
        assert(s.drop_last().take(j) =~= s.take(j));
    } else {
        assert(s.take(j) =~= s);
    }
}

/// `s` without leading and trailing white space.
pub fn trim(s: &Vec<char>) -> (r: Vec<char>)
    ensures
        r@ == trimmed(s@),
{
    let mut i: usize = 0;
    while i < s.len() && space(s[i])
        invariant
            0 <= i <= s@.len(),
            forall|k: int| 0 <= k < i ==> is_space(#[trigger] s@[k]),
        decreases s.len() - i,
    {
        i += 1;
    }
    proof {
        lemma_trim_start_skip(s@, i as int);
    }
    let ghost t = s@.skip(i as int);
    let mut j: usize = s.len();
    while j > i && space(s[j - 1])
        invariant
            i <= j <= s@.len(),
            t == s@.skip(i as int),
            forall|k: int| j <= k < s@.len() ==> is_space(#[trigger] s@[k]),
        decreases j,
    {
        j -= 1;
    }
    proof {
        assert forall|k: int| j - i <= k < t.len() implies is_space(#[trigger] t[k]) by {
            assert(t[k] == s@[k + i]);
        }
        lemma_trim_end_take(t, j - i);
        if j > i {
            assert(!is_space(s@[j - 1]));
            assert(t.take(j - i).last() == s@[j - 1]);
        } else {
            assert(t.take(0).len() == 0);
        }
        assert(trim_end(t.take(j - i)) == t.take(j - i));
        assert(t == trim_start(s@)) by {
            if i < s@.len() {
                assert(!is_space(s@[i as int]));
            }
            assert(trim_start(t) == t) by {
                if t.len() > 0 {
                    assert(t[0] == s@[i as int]);
                }
            }
        }
    }
    let mut r: Vec<char> = Vec::new();
    let mut k: usize = i;
    while k < j
        invariant
            i <= k <= j <= s@.len(),
            r@ == s@.subrange(i as int, k as int),
        decreases j - k,
    {
        r.push(s[k]);
        k += 1;
        assert(r@ =~= s@.subrange(i as int, k as int));
    }
    assert(r@ =~= t.take(j - i));
    r
}

/// Whether `a` and `b` hold the same characters.
fn same_chars(a: &Vec<char>, b: &Vec<char>) -> (r: bool)
    ensures
        r == (a@ == b@),
{
    if a.len() != b.len() {
        return false;
    }
    let mut i: usize = 0;
    while i < a.len()
        invariant
            a@.len() == b@.len(),
            0 <= i <= a@.len(),
            forall|k: int| 0 <= k < i ==> a@[k] == b@[k],
        decreases a.len() - i,
    {
        if a[i] != b[i] {
            return false;
        }
        i += 1;
    }
    assert(a@ =~= b@);
    true
}

/// Whether `t` begins with `color` and a space.
fn is_color_command(t: &Vec<char>) -> (r: bool)
    ensures
        r == is_color_line(t@),
{
    let p = vec!['c', 'o', 'l', 'o', 'r', ' '];
    if t.len() < 6 {
        return false;
    }
    let mut i: usize = 0;
    while i < 6
        invariant
            t@.len() >= 6,
            p@ == seq!['c', 'o', 'l', 'o', 'r', ' '],
            0 <= i <= 6,
            forall|k: int| 0 <= k < i ==> t@[k] == p@[k],
        decreases 6 - i,
    {
        if t[i] != p[i] {
            assert(t@.take(6)[i as int] != p@[i as int]);
            return false;
        }
        i += 1;
    }
    assert(t@.take(6) =~= p@);
    true
}

/// Reads the trimmed line `t` as a command.
pub fn parse_command(t: &Vec<char>) -> (r: Command)
    ensures
        r == command_of(t@),
{
    if t.len() == 0 {
        Command::Empty
    } else if same_chars(t, &vec!['h', 'e', 'l', 'p']) {
        Command::Help
    } else if same_chars(t, &vec!['v', 'e', 'r']) {
        Command::Version
    } else if same_chars(t, &vec!['c', 'l', 's']) {
        Command::Clear
    } else if same_chars(t, &vec!['u', 'p', 't', 'i', 'm', 'e']) {
        Command::Uptime
    } else if same_chars(t, &vec!['f', 'r', 'e', 'e']) {
        Command::Free
    } else if same_chars(t, &vec!['c', 'o', 'l', 'o', 'r']) {
        Command::ColorHelp
    } else if is_color_command(t) {
        let ws = split_whitespace(t);
        if ws.len() != 3 {
            return Command::Ignored;
        }
        proof {
            assert(ws[1]@ == ws.deep_view()[1]);
            assert(ws[2]@ == ws.deep_view()[2]);
        }
        match (parse_u8(&ws[1]), parse_u8(&ws[2])) {
            (Some(fg), Some(bg)) => match (Color::from_index(fg), Color::from_index(bg)) {
                (Some(f), Some(b)) => Command::SetColor(f, b),
                _ => Command::BadColor(fg, bg),
            },
            _ => Command::Ignored,
        }
    } else {
        Command::Unknown
    }
}

/// The line being typed.
pub struct Shell {
    buffer: Vec<char>,
}

impl View for Shell {
    type V = Seq<char>;

    closed spec fn view(&self) -> Seq<char> {
        self.buffer@
    }
}

impl Shell {
    pub fn new() -> (s: Self)
        ensures
            s@ == Seq::<char>::empty(),
    {
        Shell { buffer: Vec::new() }
    }

    /// Takes one key: a newline finishes the line, a backspace removes the
    /// last character, anything else is added.
    pub fn input(&mut self, c: char) -> (r: InputEffect)
        ensures
            c == '\n' ==> final(self)@ == Seq::<char>::empty() && (r matches InputEffect::Run(
                cmd,
                text,
            ) && text@ == trimmed(old(self)@) && cmd == command_of(text@)),
            c == '\x08' && old(self)@.len() > 0 ==> r == InputEffect::Erase && final(self)@
                == old(self)@.drop_last(),
            c == '\x08' && old(self)@.len() == 0 ==> r == InputEffect::Nothing && final(self)@
                == old(self)@,
            c != '\n' && c != '\x08' ==> r == InputEffect::Echo(c) && final(self)@ == old(self)@.push(c),
    {
        if c == '\n' {
            let (cmd, text) = self.execute();
            InputEffect::Run(cmd, text)
        } else if c == '\x08' {
            match self.buffer.pop() {
                Some(_) => InputEffect::Erase,
                None => InputEffect::Nothing,
            }
        } else {
            self.buffer.push(c);
            InputEffect::Echo(c)
        }
    }

    /// Reads the line as a command and starts a new, empty line.
    fn execute(&mut self) -> (r: (Command, Vec<char>))
        ensures
            r.1@ == trimmed(old(self)@),
            r.0 == command_of(r.1@),
            final(self)@ == Seq::<char>::empty(),
    {
        let text = trim(&self.buffer);
        let cmd = parse_command(&text);
        self.buffer = Vec::new();
        (cmd, text)
    }
}

} // verus!
