//! The number-guessing game's decisions: reading a guess from a line of
//! input and judging it against the secret. The loop that reads input and
//! prints replies lives with the program that runs the game.

use vstd::prelude::*;
use vstd::string::StrSliceExecFns;

verus! {

/// Whether `c` has the Unicode `White_Space` property.
pub open spec fn white_space(c: char) -> bool {
    ||| c == ' '
    ||| ('\u{9}' <= c && c <= '\u{d}')
    ||| c == '\u{85}'
    ||| c == '\u{a0}'
    ||| c == '\u{1680}'
    ||| ('\u{2000}' <= c && c <= '\u{200a}')
    ||| c == '\u{2028}'
    ||| c == '\u{2029}'
    ||| c == '\u{202f}'
    ||| c == '\u{205f}'
    ||| c == '\u{3000}'
}

/// Whether `c` is white space, as `char::is_whitespace` decides.
pub fn is_white_space(c: char) -> (r: bool)
    ensures
        r == white_space(c),
{
    c == ' ' || ('\u{9}' <= c && c <= '\u{d}') || c == '\u{85}' || c == '\u{a0}' || c
        == '\u{1680}' || ('\u{2000}' <= c && c <= '\u{200a}') || c == '\u{2028}' || c
        == '\u{2029}' || c == '\u{202f}' || c == '\u{205f}' || c == '\u{3000}'
}

/// `s` without its leading white space.
pub open spec fn trim_start(s: Seq<char>) -> Seq<char>
    decreases s.len(),
{
    if s.len() > 0 && white_space(s[0]) {
        trim_start(s.drop_first())
    } else {
        s
    }
}

/// `s` without its trailing white space.
pub open spec fn trim_end(s: Seq<char>) -> Seq<char>
    decreases s.len(),
{
    if s.len() > 0 && white_space(s.last()) {
        trim_end(s.drop_last())
    } else {
        s
    }
}

/// `s` without white space at either end.
pub open spec fn trimmed(s: Seq<char>) -> Seq<char> {
    trim_end(trim_start(s))
}

/// Whether `c` is one of `'0'` to `'9'`.
pub open spec fn is_digit(c: char) -> bool {
    '0' <= c && c <= '9'
}

/// The number that the decimal digits `s` spell; 0 for no digits.
pub open spec fn decimal(s: Seq<char>) -> int
    decreases s.len(),
{
    if s.len() == 0 {
        0
    } else {
        decimal(s.drop_last()) * 10 + (s.last() as int - '0' as int)
    }
}

/// The digits of a number, after an optional leading `'+'`.
pub open spec fn unsigned_body(s: Seq<char>) -> Seq<char> {
    if s.len() > 0 && s[0] == '+' {
        s.drop_first()
    } else {
        s
    }
}

/// `s` read as a `u32` in the form `u32::from_str` accepts: an optional
/// `'+'`, then one or more decimal digits, with a value that fits.
pub open spec fn parsed_u32(s: Seq<char>) -> Option<u32> {
    let body = unsigned_body(s);
    if body.len() > 0 && (forall|i: int| 0 <= i < body.len() ==> is_digit(#[trigger] body[i]))
        && decimal(body) <= u32::MAX {
        Some(decimal(body) as u32)
    } else {
        None
    }
}

proof fn lemma_trim_start(s: Seq<char>, a: int)
    requires
        0 <= a <= s.len(),
        forall|j: int| 0 <= j < a ==> white_space(#[trigger] s[j]),
        a == s.len() || !white_space(s[a]),
    ensures
        trim_start(s) == s.skip(a),
    decreases a,
{
    if a > 0 {
        lemma_trim_start(s.drop_first(), a - 1);
        assert(s.drop_first().skip(a - 1) =~= s.skip(a));
    } else {
        assert(s.skip(0) =~= s);
    }
}

proof fn lemma_trim_end(s: Seq<char>, b: int)
    requires
        0 <= b <= s.len(),
        forall|j: int| b <= j < s.len() ==> white_space(#[trigger] s[j]),
        b == 0 || !white_space(s[b - 1]),
    ensures
        trim_end(s) == s.take(b),
    decreases s.len() - b,
{
    if b < s.len() {
        lemma_trim_end(s.drop_last(), b);
        assert(s.drop_last().take(b) =~= s.take(b));
    } else {
        assert(s.take(b) =~= s);
    }
}

proof fn lemma_decimal_grows(s: Seq<char>, k: int)
    requires
        0 <= k <= s.len(),
        forall|i: int| 0 <= i < s.len() ==> is_digit(#[trigger] s[i]),
    ensures
        decimal(s.take(k)) <= decimal(s),
        0 <= decimal(s),
    decreases s.len(),
{
    if s.len() > 0 {
        let d = s.drop_last();
        assert forall|i: int| 0 <= i < d.len() implies is_digit(#[trigger] d[i]) by {
            assert(d[i] == s[i]);
        }
        if k < s.len() {
            lemma_decimal_grows(d, k);
            assert(d.take(k) =~= s.take(k));
        } else {
            lemma_decimal_grows(d, 0);
            assert(s.take(k) =~= s);
        }
    } else {
        assert(s.take(k) =~= s);
    }
}

/// Reads a guess from a line of input: white space at either end is
/// ignored, and the rest must be a `u32` (optionally signed with `'+'`).
pub fn parse_guess(line: &str) -> (r: Option<u32>)
    ensures
        r == parsed_u32(trimmed(line@)),
{
    let n = line.unicode_len();
    let mut a: usize = 0;
    while a < n && is_white_space(line.get_char(a))
        invariant
            n == line@.len(),
            a <= n,
            forall|j: int| 0 <= j < a ==> white_space(#[trigger] line@[j]),
        decreases n - a,
    {
        a = a + 1;
    }
    proof {
        lemma_trim_start(line@, a as int);
    }
    let ghost lead = line@.skip(a as int);
    let mut b: usize = n;
    while b > a && is_white_space(line.get_char(b - 1))
        invariant
            n == line@.len(),
            a <= b <= n,
            lead == line@.skip(a as int),
            forall|j: int| b - a <= j < lead.len() ==> white_space(#[trigger] lead[j]),
        decreases b,
    {
        b = b - 1;
    }
    proof {
        lemma_trim_end(lead, b - a);
    }
    let ghost t = lead.take(b - a);
    assert(t == trimmed(line@));
    let mut start = a;
    if a < b && line.get_char(a) == '+' {
        start = a + 1;
    }
    let ghost body = unsigned_body(t);
    assert(body =~= line@.subrange(start as int, b as int));
    if start == b {
        assert(unsigned_body(t).len() == 0);
        assert(parsed_u32(t) is None);
        return None;
    }
    let mut value: u64 = 0;
    let mut k: usize = start;
    while k < b
        invariant
            n == line@.len(),
            start <= k <= b <= n,
            body =~= line@.subrange(start as int, b as int),
            body == unsigned_body(t),
            t == trimmed(line@),
            forall|i: int| 0 <= i < k - start ==> is_digit(#[trigger] body[i]),
            value == decimal(body.take(k - start)),
            value <= u32::MAX,
        decreases b - k,
    {
        let c = line.get_char(k);
        assert(c == body[k - start]);
        if c < '0' || c > '9' {
            assert(!is_digit(body[k - start]));
            assert(parsed_u32(t) is None);
            return None;
        }
        assert(body.take(k - start + 1).drop_last() =~= body.take(k - start));
        let next = value * 10 + (c as u64 - '0' as u64);
        if next > u32::MAX as u64 {
            proof {
                let j = k - start + 1;
                if forall|i: int| 0 <= i < body.len() ==> is_digit(#[trigger] body[i]) {
                    lemma_decimal_grows(body, j);
                }
            }
            return None;
        }
        value = next;
        k = k + 1;
    }
    assert(body.take(body.len() as int) =~= body);
    Some(value as u32)
}

/// How a guess compares with the secret.
#[derive(PartialEq, Eq, Structural, Debug, Clone, Copy)]
pub enum Verdict {
    TooSmall,
    TooBig,
    Win,
}

/// The verdict on `guess` against `secret`.
pub open spec fn verdict_of(guess: u32, secret: u32) -> Verdict {
    if guess < secret {
        Verdict::TooSmall
    } else if guess > secret {
        Verdict::TooBig
    } else {
        Verdict::Win
    }
}

/// Compares `guess` with `secret`.
pub fn judge(guess: u32, secret: u32) -> (r: Verdict)
    ensures
        r == verdict_of(guess, secret),
{
    if guess < secret {
        Verdict::TooSmall
    } else if guess > secret {
        Verdict::TooBig
    } else {
        Verdict::Win
    }
}

/// What the game answers to one line of input.
#[derive(PartialEq, Eq, Structural, Debug, Clone, Copy)]
pub enum Reply {
    /// The line was not a number; the game waits for another.
    Ignored,
    /// The line was a number, judged against the secret.
    Judged(Verdict),
}

/// The state of one game: the secret and whether it has been found.
pub struct GuessGame {
    secret: u32,
    won: bool,
}

/// The thread-local random number generator of the `rand` crate.
#[verifier::external_type_specification]
#[verifier::external_body]
pub struct ExThreadRng(rand::rngs::ThreadRng);

/// Relies on `rand::thread_rng`: a handle on the thread's generator.
pub assume_specification[ rand::thread_rng ]() -> rand::rngs::ThreadRng;

/// Relies on `rand::Rng::gen_range` over `low..=high`: a number in that
/// range, which is never empty here (the call panics on an empty range).
#[verifier::external_body]
fn draw_between(rng: &mut rand::rngs::ThreadRng, low: u32, high: u32) -> (r: u32)
    requires
        low <= high,
    ensures
        low <= r <= high,
{
    rand::Rng::gen_range(rng, low..=high)
}

impl GuessGame {
    /// The number to find.
    pub closed spec fn secret(&self) -> u32 {
        self.secret
    }

    /// Whether the secret has been guessed.
    pub closed spec fn finished(&self) -> bool {
        self.won
    }

    /// A game whose secret is drawn at random from `0..=100`.
    pub fn start() -> (r: GuessGame)
        ensures
            r.secret() <= 100,
            !r.finished(),
    {
        let mut rng = rand::thread_rng();
        GuessGame { secret: draw_between(&mut rng, 0, 100), won: false }
    }

    /// A game with a chosen secret.
    pub fn with_secret(secret: u32) -> (r: GuessGame)
        ensures
            r.secret() == secret,
            !r.finished(),
    {
        GuessGame { secret, won: false }
    }

    /// The secret, for display once the game is over.
    pub fn secret_number(&self) -> (r: u32)
        ensures
            r == self.secret(),
    {
        self.secret
    }

    /// Whether the secret has been guessed.
    pub fn is_finished(&self) -> (r: bool)
        ensures
            r == self.finished(),
    {
        self.won
    }

    /// Takes one line of input: lines that are not a number are ignored,
    /// numbers are judged, and a right guess ends the game.
    pub fn guess(&mut self, line: &str) -> (r: Reply)
        ensures
            final(self).secret() == old(self).secret(),
            r == match parsed_u32(trimmed(line@)) {
                None => Reply::Ignored,
                Some(g) => Reply::Judged(verdict_of(g, old(self).secret())),
            },
            final(self).finished() == (old(self).finished() || r == Reply::Judged(Verdict::Win)),
    {
        match parse_guess(line) {
            None => Reply::Ignored,
            Some(g) => {
                let v = judge(g, self.secret);
                if v == Verdict::Win {
                    self.won = true;
                }
                Reply::Judged(v)
            },
        }
    }
}

} // verus!
