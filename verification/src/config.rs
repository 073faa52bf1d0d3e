//! The validated configuration: requested representations, bit width,
//! output mode and the decoded value, together with the parsers that build
//! its parts from command-line tokens.

use vstd::prelude::*;
use vstd::string::StrSliceExecFns;

use crate::error::ParseError;

verus! {

/// One textual representation of the value.
#[derive(Clone, Copy, PartialEq, Eq, Structural, Debug)]
pub enum Representation {
    /// Binary.
    B,
    /// Decimal.
    D,
    /// Hexadecimal.
    H,
}

/// How many low-order bits the binary view prints.
#[derive(Clone, Copy, PartialEq, Eq, Structural, Debug)]
pub enum Format {
    U32,
    U64,
}

impl Format {
    /// The number of bits shown by the binary view.
    pub open spec fn spec_width(self) -> nat {
        match self {
            Format::U32 => 32,
            Format::U64 => 64,
        }
    }

    /// The number of bits shown by the binary view.
    pub fn width(&self) -> (w: u64)
        ensures
            w == self.spec_width(),
    {
        match self {
            Format::U32 => 32,
            Format::U64 => 64,
        }
    }
}

/// The set of requested representations. Three members are possible, so the
/// set is a fixed-capacity record of three flags; duplicates collapse by
/// construction.
#[derive(Clone, Copy, PartialEq, Eq, Structural, Debug)]
pub struct ReprSet {
    pub b: bool,
    pub d: bool,
    pub h: bool,
}

impl ReprSet {
    /// The set with no members.
    pub fn empty() -> (r: ReprSet)
        ensures
            !r.b && !r.d && !r.h,
    {
        ReprSet { b: false, d: false, h: false }
    }

    /// Whether `r` is a member.
    pub open spec fn spec_contains(self, r: Representation) -> bool {
        match r {
            Representation::B => self.b,
            Representation::D => self.d,
            Representation::H => self.h,
        }
    }

    /// Whether `r` is a member.
    pub fn contains(&self, r: Representation) -> (c: bool)
        ensures
            c == self.spec_contains(r),
    {
        match r {
            Representation::B => self.b,
            Representation::D => self.d,
            Representation::H => self.h,
        }
    }

    /// Add `r` to the set; every other membership is unchanged.
    pub fn insert(&mut self, r: Representation)
        ensures
            final(self).b == (old(self).b || r is B),
            final(self).d == (old(self).d || r is D),
            final(self).h == (old(self).h || r is H),
    {
        match r {
            Representation::B => self.b = true,
            Representation::D => self.d = true,
            Representation::H => self.h = true,
        }
    }
}

/// The whole validated configuration, built once before any rendering.
#[derive(Clone, Copy, PartialEq, Eq, Structural, Debug)]
pub struct Config {
    pub format: Format,
    pub representation: ReprSet,
    pub simplified: bool,
    pub value: u64,
}

/// The representation named by a single-character token, case-insensitively.
pub open spec fn char_repr(c: char) -> Option<Representation> {
    if c == 'b' || c == 'B' {
        Some(Representation::B)
    } else if c == 'd' || c == 'D' {
        Some(Representation::D)
    } else if c == 'h' || c == 'H' {
        Some(Representation::H)
    } else {
        None
    }
}

/// The representation a whole token names: tokens are exactly one character
/// long.
pub open spec fn token_repr(t: Seq<char>) -> Option<Representation> {
    if t.len() == 1 {
        char_repr(t[0])
    } else {
        None
    }
}

/// `s` split at every occurrence of `sep`, as `str::split` does it: the
/// empty string yields one empty token, and a separator at either end or
/// next to another yields an empty token.
pub open spec fn split_seq(s: Seq<char>, sep: char) -> Seq<Seq<char>>
    decreases s.len(),
{
    if s.len() == 0 {
        seq![Seq::<char>::empty()]
    } else if s[0] == sep {
        seq![Seq::<char>::empty()] + split_seq(s.skip(1), sep)
    } else {
        let r = split_seq(s.skip(1), sep);
        r.update(0, seq![s[0]] + r[0])
    }
}

pub open spec fn tokens_valid(ts: Seq<Seq<char>>) -> bool {
    forall|i: int| 0 <= i < ts.len() ==> (#[trigger] token_repr(ts[i])) is Some
}

pub open spec fn tokens_contain(ts: Seq<Seq<char>>, r: Representation) -> bool {
    exists|i: int| 0 <= i < ts.len() && #[trigger] token_repr(ts[i]) == Some(r)
}

/// What a representation list parses to: every comma-separated token must
/// name a representation; the result is their set, duplicates collapsing.
pub open spec fn spec_parse_reprs(s: Seq<char>, sep: char) -> Option<ReprSet> {
    let ts = split_seq(s, sep);
    if tokens_valid(ts) {
        Some(
            ReprSet {
                b: tokens_contain(ts, Representation::B),
                d: tokens_contain(ts, Representation::D),
                h: tokens_contain(ts, Representation::H),
            },
        )
    } else {
        None
    }
}

/// Splitting detaches the first token whole: if the first `k` characters
/// carry no separator and the string ends or holds one right after them,
/// those characters are the first token and the rest splits on its own.
proof fn lemma_split_first(s: Seq<char>, sep: char, k: int)
    requires
        0 <= k <= s.len(),
        forall|m: int| 0 <= m < k ==> s[m] != sep,
        k == s.len() || s[k] == sep,
    ensures
        k == s.len() ==> split_seq(s, sep) == seq![s],
        k < s.len() ==> split_seq(s, sep) == seq![s.take(k)] + split_seq(s.skip(k + 1), sep),
    decreases s.len(),
{
    if s.len() == 0 {
        assert(split_seq(s, sep) =~~= seq![s]);
    } else if k == 0 {
        if k < s.len() {
            assert(s[0] == sep);
            assert(s.take(0) =~= Seq::<char>::empty());
            assert(split_seq(s, sep) =~~= seq![s.take(0)] + split_seq(s.skip(1), sep));
        }
    } else {
        let t = s.skip(1);
        assert(s[0] != sep);
        assert(forall|m: int| 0 <= m < k - 1 ==> t[m] == s[m + 1] && #[trigger] t[m] != sep);
        assert(k - 1 == t.len() || t[k - 1] == sep);
        lemma_split_first(t, sep, k - 1);
        let r = split_seq(t, sep);
        if k == s.len() {
            assert(r == seq![t]);
            assert(seq![s[0]] + r[0] =~= s);
            assert(split_seq(s, sep) =~~= seq![s]);
        } else {
            assert(r == seq![t.take(k - 1)] + split_seq(t.skip(k), sep));
            assert(r[0] == t.take(k - 1));
            assert(seq![s[0]] + t.take(k - 1) =~= s.take(k));
            assert(t.skip(k) =~= s.skip(k + 1));
            assert(split_seq(s, sep) =~~= seq![s.take(k)] + split_seq(s.skip(k + 1), sep));
        }
    }
}

/// Validity and membership over a split distribute over its first token and
/// the remainder.
proof fn lemma_tokens_cons(t0: Seq<char>, rest: Seq<Seq<char>>)
    ensures
        tokens_valid(seq![t0] + rest) == (token_repr(t0) is Some && tokens_valid(rest)),
        forall|r: Representation|
            #[trigger] tokens_contain(seq![t0] + rest, r) == (token_repr(t0) == Some(r)
                || tokens_contain(rest, r)),
{
    let ts = seq![t0] + rest;
    assert(ts[0] == t0);
    assert(forall|i: int| 1 <= i < ts.len() ==> ts[i] == rest[i - 1]);
    if token_repr(t0) is Some && tokens_valid(rest) {
        assert forall|i: int| 0 <= i < ts.len() implies (#[trigger] token_repr(ts[i])) is Some by {
            if i >= 1 {
                assert(ts[i] == rest[i - 1]);
            }
        }
    }
    if tokens_valid(ts) {
        assert forall|i: int| 0 <= i < rest.len() implies (#[trigger] token_repr(
            rest[i],
        )) is Some by {
            assert(rest[i] == ts[i + 1]);
            assert(token_repr(ts[i + 1]) is Some);
        }
    }
    assert forall|r: Representation| #[trigger]
        tokens_contain(ts, r) == (token_repr(t0) == Some(r) || tokens_contain(rest, r)) by {
        if tokens_contain(ts, r) {
            let i = choose|i: int| 0 <= i < ts.len() && #[trigger] token_repr(ts[i]) == Some(r);
            if i == 0 {
                assert(token_repr(t0) == Some(r));
            } else {
                assert(ts[i] == rest[i - 1]);
                assert(token_repr(rest[i - 1]) == Some(r));
            }
        }
        if token_repr(t0) == Some(r) {
            assert(token_repr(ts[0]) == Some(r));
        }
        if tokens_contain(rest, r) {
            let i = choose|i: int| 0 <= i < rest.len() && #[trigger] token_repr(rest[i]) == Some(
                r,
            );
            assert(token_repr(ts[i + 1]) == Some(r));
        }
    }
}

/// The representation named by one token character, or `None`.
fn repr_of_char(c: char) -> (r: Option<Representation>)
    ensures
        r == char_repr(c),
{
    if c == 'b' || c == 'B' {
        Some(Representation::B)
    } else if c == 'd' || c == 'D' {
        Some(Representation::D)
    } else if c == 'h' || c == 'H' {
        Some(Representation::H)
    } else {
        None
    }
}

/// Parse the token list of `s` from position `start` on.
fn parse_reprs_from(s: &str, start: usize, sep: char) -> (r: Result<ReprSet, ParseError>)
    requires
        start <= s@.len(),
    ensures
        match r {
            Ok(set) => spec_parse_reprs(s@.skip(start as int), sep) == Some(set),
            Err(e) => spec_parse_reprs(s@.skip(start as int), sep) is None && e
                == ParseError::InvalidRepresentation,
        },
    decreases s@.len() - start,
{
    let ghost rem = s@.skip(start as int);
    let n = s.unicode_len();
    let mut j: usize = start;
    while j < n && s.get_char(j) != sep
        invariant
            start <= j <= n,
            n == s@.len(),
            forall|m: int| start <= m < j ==> s@[m] != sep,
        decreases n - j,
    {
        j = j + 1;
    }
    let ghost k = j - start;
    proof {
        assert(forall|m: int| 0 <= m < k ==> rem[m] == s@[m + start] && #[trigger] rem[m] != sep);
        assert(k == rem.len() || rem[k] == sep);
        lemma_split_first(rem, sep, k);
    }
    let ghost ts = split_seq(rem, sep);
    let token = if j - start == 1 {
        repr_of_char(s.get_char(start))
    } else {
        None
    };
    proof {
        assert(j - start == 1 ==> rem.take(1) =~= seq![s@[start as int]]);
    }
    let mine = match token {
        Some(rep) => rep,
        None => {
            proof {
                if k == rem.len() {
                    assert(ts == seq![rem]);
                    assert(token_repr(ts[0]) is None);
                } else {
                    assert(ts[0] == rem.take(k));
                    assert(token_repr(ts[0]) is None);
                }
            }
            return Err(ParseError::InvalidRepresentation);
        },
    };
    proof {
        assert(token_repr(rem.take(k)) == Some(mine));
    }
    if j == n {
        let mut set = ReprSet::empty();
        set.insert(mine);
        proof {
            assert(ts == seq![rem]);
            assert(rem.take(k) =~= rem);
            let none = Seq::<Seq<char>>::empty();
            lemma_tokens_cons(rem, none);
            assert(ts =~~= seq![rem] + none);
            assert(tokens_valid(none));
            assert(!tokens_contain(none, Representation::B));
            assert(!tokens_contain(none, Representation::D));
            assert(!tokens_contain(none, Representation::H));
            assert(tokens_valid(ts));
            assert(set.b == tokens_contain(ts, Representation::B));
            assert(set.d == tokens_contain(ts, Representation::D));
            assert(set.h == tokens_contain(ts, Representation::H));
            assert(spec_parse_reprs(rem, sep) == Some(set));
        }
        Ok(set)
    } else {
        let ghost rest = split_seq(s@.skip(j as int + 1), sep);
        proof {
            assert(rem.skip(k + 1) =~= s@.skip(j as int + 1));
            assert(ts == seq![rem.take(k)] + rest);
            lemma_tokens_cons(rem.take(k), rest);
        }
        match parse_reprs_from(s, j + 1, sep) {
            Ok(sub) => {
                let mut set = sub;
                set.insert(mine);
                proof {
                    assert(tokens_valid(rest));
                    assert(sub.b == tokens_contain(rest, Representation::B));
                    assert(sub.d == tokens_contain(rest, Representation::D));
                    assert(sub.h == tokens_contain(rest, Representation::H));
                    assert(tokens_valid(ts));
                    assert(tokens_contain(ts, Representation::B) == (token_repr(rem.take(k))
                        == Some(Representation::B) || tokens_contain(rest, Representation::B)));
                    assert(set.b == tokens_contain(ts, Representation::B));
                    assert(set.d == tokens_contain(ts, Representation::D));
                    assert(set.h == tokens_contain(ts, Representation::H));
                    assert(spec_parse_reprs(rem, sep) == Some(set));
                }
                Ok(set)
            },
            Err(e) => Err(e),
        }
    }
}

/// The parser of the representation list: tokens separated by `sep_char`,
/// each naming one representation.
#[derive(Clone, Copy, PartialEq, Eq, Structural, Debug)]
pub struct EnumSetParser {
    pub sep_char: char,
}

impl EnumSetParser {
    /// A parser that splits its input at `sep_char`.
    pub fn new(sep_char: char) -> (r: Self)
        ensures
            r.sep_char == sep_char,
    {
        EnumSetParser { sep_char }
    }

    /// Parse a token list such as `h,d,b`: exactly the lists
    /// `spec_parse_reprs` accepts yield a set; every other input yields
    /// `InvalidRepresentation`.
    pub fn parse(&self, s: &str) -> (r: Result<ReprSet, ParseError>)
        ensures
            match r {
                Ok(set) => spec_parse_reprs(s@, self.sep_char) == Some(set),
                Err(e) => spec_parse_reprs(s@, self.sep_char) is None && e
                    == ParseError::InvalidRepresentation,
            },
    {
        proof {
            assert(s@.skip(0) =~= s@);
        }
        parse_reprs_from(s, 0, self.sep_char)
    }
}

/// What the bit-width argument parses to: exactly `u32` or `u64`.
pub open spec fn spec_format(s: Seq<char>) -> Option<Format> {
    if s == "u32"@ {
        Some(Format::U32)
    } else if s == "u64"@ {
        Some(Format::U64)
    } else {
        None
    }
}

/// Parse the bit-width argument: exactly the tokens `spec_format` accepts
/// yield a width; every other input yields `InvalidFormat`.
pub fn parse_format(s: &str) -> (r: Result<Format, ParseError>)
    ensures
        match r {
            Ok(f) => spec_format(s@) == Some(f),
            Err(e) => spec_format(s@) is None && e == ParseError::InvalidFormat,
        },
{
    proof {
        reveal_strlit("u32");
        reveal_strlit("u64");
    }
    let n = s.unicode_len();
    if n == 3 && s.get_char(0) == 'u' {
        let c1 = s.get_char(1);
        let c2 = s.get_char(2);
        if c1 == '3' && c2 == '2' {
            proof {
                assert(s@ =~= "u32"@);
            }
            return Ok(Format::U32);
        }
        if c1 == '6' && c2 == '4' {
            proof {
                assert(s@ =~= "u64"@);
            }
            return Ok(Format::U64);
        }
    }
    proof {
        assert(s@ != "u32"@ && s@ != "u64"@) by {
            if s@ == "u32"@ || s@ == "u64"@ {
                assert(s@.len() == 3);
            }
        }
    }
    Err(ParseError::InvalidFormat)
}

} // verus!
