//! Lexical analysis: turning a text into a sequence of [`Symbol`]s.
//!
//! The scan moves left to right. At each position the quantity pattern
//! (digits, optional whitespace, unit suffix) is tried before the plain
//! number pattern, because the number pattern is a strict prefix of the
//! quantity pattern and would otherwise swallow the digits and strand the
//! unit suffix. Operators are single characters; whitespace and anything
//! unrecognized is skipped one character at a time, never reported.

use vstd::prelude::*;
use vstd::string::StrSliceExecFns;

verus! {

/// How two already-reduced values are combined.
#[derive(Clone, Copy, Debug, PartialEq, Eq, Structural)]
pub enum OperatorKind {
    Add,
    Subtract,
    Multiply,
    Divide,
}

/// One token of the input text.
#[derive(Clone, Copy, Debug, PartialEq, Eq, Structural)]
pub enum Symbol {
    /// Some quantity of bytes, already converted from its unit.
    Quantity(u64),
    /// A number that is not representative of a quantity.
    Number(u64),
    /// An operator, see [`OperatorKind`].
    Operator(OperatorKind),
}

/// A decimal digit.
pub open spec fn is_digit(c: char) -> bool {
    48 <= c as u32 && c as u32 <= 57
}

/// The value of a decimal digit.
pub open spec fn digit_val(c: char) -> int {
    c as u32 - 48
}

/// ASCII whitespace: space, tab, line feed, vertical tab, form feed,
/// carriage return.
pub open spec fn is_space(c: char) -> bool {
    c == ' ' || c == '\t' || c == '\n' || c == '\u{b}' || c == '\u{c}' || c == '\r'
}

/// The length of the run of digits at the head of `s`.
pub open spec fn digit_run(s: Seq<char>) -> int
    decreases s.len(),
{
    if s.len() == 0 || !is_digit(s[0]) {
        0
    } else {
        1 + digit_run(s.skip(1))
    }
}

/// The length of the run of whitespace at the head of `s`.
pub open spec fn space_run(s: Seq<char>) -> int
    decreases s.len(),
{
    if s.len() == 0 || !is_space(s[0]) {
        0
    } else {
        1 + space_run(s.skip(1))
    }
}

/// The value of a string of decimal digits, most significant first.
pub open spec fn digits_value(s: Seq<char>) -> int
    decreases s.len(),
{
    if s.len() == 0 {
        0
    } else {
        digits_value(s.drop_last()) * 10 + digit_val(s.last())
    }
}

/// A binary-unit prefix letter; only upper case is recognized.
pub open spec fn is_unit_prefix(c: char) -> bool {
    c == 'K' || c == 'M' || c == 'G' || c == 'T' || c == 'P'
}

/// The byte multiplier of a prefix letter in its exact binary spelling
/// (`KiB` and so on): a power of two from `2^10` up to `2^50`.
pub open spec fn prefix_multiplier(c: char) -> u64 {
    if c == 'K' {
        1024
    } else if c == 'M' {
        0x100000
    } else if c == 'G' {
        0x40000000
    } else if c == 'T' {
        0x10000000000
    } else if c == 'P' {
        0x4000000000000
    } else {
        1
    }
}

/// The final letter of a unit suffix: `b` or `B`.
pub open spec fn is_unit_end(c: char) -> bool {
    c == 'b' || c == 'B'
}

/// The unit suffix at the head of `s`, if any: its length and its byte
/// multiplier. A suffix is an optional prefix letter, an optional `i`, and a
/// final `b` or `B`; only the exact binary spellings `KiB` through `PiB`
/// carry a multiplier other than one, so `12GB` and `12Gib` both name twelve
/// bytes while `12GiB` names twelve gibibytes.
pub open spec fn unit_match(s: Seq<char>) -> Option<(int, u64)> {
    if s.len() >= 1 && is_unit_prefix(s[0]) {
        if s.len() >= 3 && s[1] == 'i' && s[2] == 'B' {
            Some((3, prefix_multiplier(s[0])))
        } else if s.len() >= 3 && s[1] == 'i' && s[2] == 'b' {
            Some((3, 1))
        } else if s.len() >= 2 && is_unit_end(s[1]) {
            Some((2, 1))
        } else {
            None
        }
    } else if s.len() >= 2 && s[0] == 'i' && is_unit_end(s[1]) {
        Some((2, 1))
    } else if s.len() >= 1 && is_unit_end(s[0]) {
        Some((1, 1))
    } else {
        None
    }
}

proof fn lemma_digit_run_le(s: Seq<char>)
    ensures
        0 <= digit_run(s) <= s.len(),
    decreases s.len(),
{
    if s.len() != 0 && is_digit(s[0]) {
        lemma_digit_run_le(s.skip(1));
    }
}

proof fn lemma_space_run_le(s: Seq<char>)
    ensures
        0 <= space_run(s) <= s.len(),
    decreases s.len(),
{
    if s.len() != 0 && is_space(s[0]) {
        lemma_space_run_le(s.skip(1));
    }
}

/// The token sequence of a text. At each position: a run of digits becomes a
/// quantity when a unit suffix follows (after optional whitespace) and a
/// plain number otherwise; `+ - * /` become operators; any other character
/// is dropped. A token whose value would not fit in `u64` is dropped as
/// well, though its text is still consumed.
pub open spec fn tokens_of(s: Seq<char>) -> Seq<Symbol>
    decreases s.len(),
    via tokens_of_decreases
{
    if s.len() == 0 {
        Seq::empty()
    } else if is_digit(s[0]) {
        let d = digit_run(s);
        let w = space_run(s.skip(d));
        let v = digits_value(s.take(d));
        match unit_match(s.skip(d + w)) {
            Some((ulen, mult)) => {
                let rest = tokens_of(s.skip(d + w + ulen));
                if v * mult <= u64::MAX {
                    seq![Symbol::Quantity((v * mult) as u64)] + rest
                } else {
                    rest
                }
            },
            None => {
                let rest = tokens_of(s.skip(d));
                if v <= u64::MAX {
                    seq![Symbol::Number(v as u64)] + rest
                } else {
                    rest
                }
            },
        }
    } else if s[0] == '+' {
        seq![Symbol::Operator(OperatorKind::Add)] + tokens_of(s.skip(1))
    } else if s[0] == '-' {
        seq![Symbol::Operator(OperatorKind::Subtract)] + tokens_of(s.skip(1))
    } else if s[0] == '*' {
        seq![Symbol::Operator(OperatorKind::Multiply)] + tokens_of(s.skip(1))
    } else if s[0] == '/' {
        seq![Symbol::Operator(OperatorKind::Divide)] + tokens_of(s.skip(1))
    } else {
        tokens_of(s.skip(1))
    }
}

#[via_fn]
proof fn tokens_of_decreases(s: Seq<char>) {
    if s.len() != 0 && is_digit(s[0]) {
        lemma_digit_run_le(s);
        lemma_digit_run_le(s.skip(1));
        lemma_space_run_le(s.skip(digit_run(s)));
        assert(digit_run(s) == 1 + digit_run(s.skip(1)));
        assert(s.skip(digit_run(s)).len() == s.len() - digit_run(s));
    }
}

/// A digit run stops exactly at the first non-digit.
pub(crate) proof fn lemma_digit_run_exact(s: Seq<char>, n: int)
    requires
        0 <= n <= s.len(),
        forall|k: int| 0 <= k < n ==> is_digit(s[k]),
        n == s.len() || !is_digit(s[n]),
    ensures
        digit_run(s) == n,
    decreases s.len(),
{
    if n == 0 {
    } else {
        assert(is_digit(s[0]));
        lemma_digit_run_exact(s.skip(1), n - 1);
    }
}

/// A whitespace run stops exactly at the first non-space.
pub(crate) proof fn lemma_space_run_exact(s: Seq<char>, n: int)
    requires
        0 <= n <= s.len(),
        forall|k: int| 0 <= k < n ==> is_space(s[k]),
        n == s.len() || !is_space(s[n]),
    ensures
        space_run(s) == n,
    decreases s.len(),
{
    if n == 0 {
    } else {
        assert(is_space(s[0]));
        lemma_space_run_exact(s.skip(1), n - 1);
    }
}

/// The value of a digit string is never negative.
proof fn lemma_digits_value_nonneg(s: Seq<char>)
    requires
        forall|k: int| 0 <= k < s.len() ==> is_digit(s[k]),
    ensures
        digits_value(s) >= 0,
    decreases s.len(),
{
    if s.len() != 0 {
        lemma_digits_value_nonneg(s.drop_last());
    }
}

/// The characters of `s`, in order.
fn chars_of(s: &str) -> (r: Vec<char>)
    ensures
        r@ == s@,
{
    let n: usize = s.unicode_len();
    let mut r: Vec<char> = Vec::new();
    let mut i: usize = 0;
    while i < n
        invariant
            n == s@.len(),
            i <= n,
            r@ == s@.take(i as int),
        decreases n - i,
    {
        let c = s.get_char(i);
        r.push(c);
        i = i + 1;
        proof {
            assert(r@ =~= s@.take(i as int));
        }
    }
    proof {
        assert(s@.take(n as int) =~= s@);
    }
    r
}

/// Scans the run of digits beginning at `start`: returns the position just
/// past the run, and the run's value unless it does not fit in `u64`.
fn scan_digits(cs: &Vec<char>, start: usize) -> (r: (usize, Option<u64>))
    requires
        start <= cs@.len(),
    ensures
        ({
            let s = cs@.skip(start as int);
            &&& r.0 == start + digit_run(s)
            &&& r.0 <= cs@.len()
            &&& (match r.1 {
                Some(v) => v == digits_value(s.take(digit_run(s))),
                None => digits_value(s.take(digit_run(s))) > u64::MAX,
            })
        }),
{
    let n: usize = cs.len();
    let mut j: usize = start;
    let mut value: u64 = 0;
    let mut overflow: bool = false;
    loop
        invariant
            start <= j <= n,
            n == cs@.len(),
            forall|k: int| start <= k < j ==> is_digit(cs@[k]),
            !overflow ==> value == digits_value(cs@.subrange(start as int, j as int)),
            overflow ==> digits_value(cs@.subrange(start as int, j as int)) > u64::MAX,
        ensures
            start <= j <= n,
            n == cs@.len(),
            j == n || !is_digit(cs@[j as int]),
            forall|k: int| start <= k < j ==> is_digit(cs@[k]),
            !overflow ==> value == digits_value(cs@.subrange(start as int, j as int)),
            overflow ==> digits_value(cs@.subrange(start as int, j as int)) > u64::MAX,
        decreases n - j,
    {
        if j == n {
            break;
        }
        let c = cs[j];
        let u: u32 = c as u32;
        if u < 48 || u > 57 {
            break;
        }
        let d: u64 = (u - 48) as u64;
        proof {
            let prefix = cs@.subrange(start as int, j as int);
            let next = cs@.subrange(start as int, j as int + 1);
            assert(next.drop_last() =~= prefix);
            assert(next.last() == cs@[j as int]);
            assert(digits_value(next) == digits_value(prefix) * 10 + digit_val(cs@[j as int]));
            assert(forall|k: int| 0 <= k < prefix.len() ==> is_digit(prefix[k]));
            lemma_digits_value_nonneg(prefix);
        }
        if !overflow {
            let stepped: Option<u64> = match value.checked_mul(10) {
                Some(t) => t.checked_add(d),
                None => None,
            };
            match stepped {
                Some(v) => {
                    value = v;
                },
                None => {
                    overflow = true;
                },
            }
        }
        j = j + 1;
    }
    proof {
        let s = cs@.skip(start as int);
        assert(forall|k: int| 0 <= k < j - start ==> is_digit(s[k]));
        assert(j - start == s.len() || !is_digit(s[j - start]));
        lemma_digit_run_exact(s, j - start);
        assert(s.take(j - start) =~= cs@.subrange(start as int, j as int));
    }
    (j, if overflow {
        None
    } else {
        Some(value)
    })
}

/// Scans the run of whitespace beginning at `start`: returns the position
/// just past the run.
fn scan_spaces(cs: &Vec<char>, start: usize) -> (r: usize)
    requires
        start <= cs@.len(),
    ensures
        r == start + space_run(cs@.skip(start as int)),
        r <= cs@.len(),
{
    let n: usize = cs.len();
    let mut j: usize = start;
    loop
        invariant
            start <= j <= n,
            n == cs@.len(),
            forall|k: int| start <= k < j ==> is_space(cs@[k]),
        ensures
            start <= j <= n,
            n == cs@.len(),
            j == n || !is_space(cs@[j as int]),
            forall|k: int| start <= k < j ==> is_space(cs@[k]),
        decreases n - j,
    {
        if j == n {
            break;
        }
        let c = cs[j];
        if !(c == ' ' || c == '\t' || c == '\n' || c == '\u{b}' || c == '\u{c}' || c == '\r') {
            break;
        }
        j = j + 1;
    }
    proof {
        let s = cs@.skip(start as int);
        assert(forall|k: int| 0 <= k < j - start ==> is_space(s[k]));
        assert(j - start == s.len() || !is_space(s[j - start]));
        lemma_space_run_exact(s, j - start);
    }
    j
}

/// Matches a unit suffix beginning at `start`: returns the position just
/// past the suffix and its byte multiplier, or `None` where no suffix
/// stands.
fn match_unit(cs: &Vec<char>, start: usize) -> (r: Option<(usize, u64)>)
    requires
        start <= cs@.len(),
    ensures
        ({
            let u = unit_match(cs@.skip(start as int));
            match r {
                Some((end, mult)) => u == Some((end - start, mult)) && end <= cs@.len(),
                None => u is None,
            }
        }),
{
    let n: usize = cs.len();
    let rem: usize = n - start;
    if rem >= 1 {
        let c0 = cs[start];
        if c0 == 'K' || c0 == 'M' || c0 == 'G' || c0 == 'T' || c0 == 'P' {
            if rem >= 3 && cs[start + 1] == 'i' && cs[start + 2] == 'B' {
                let mult: u64 = if c0 == 'K' {
                    1024
                } else if c0 == 'M' {
                    0x100000
                } else if c0 == 'G' {
                    0x40000000
                } else if c0 == 'T' {
                    0x10000000000
                } else {
                    0x4000000000000
                };
                return Some((start + 3, mult));
            }
            if rem >= 3 && cs[start + 1] == 'i' && cs[start + 2] == 'b' {
                return Some((start + 3, 1));
            }
            if rem >= 2 && (cs[start + 1] == 'b' || cs[start + 1] == 'B') {
                return Some((start + 2, 1));
            }
            return None;
        }
        if rem >= 2 && c0 == 'i' && (cs[start + 1] == 'b' || cs[start + 1] == 'B') {
            return Some((start + 2, 1));
        }
        if c0 == 'b' || c0 == 'B' {
            return Some((start + 1, 1));
        }
        return None;
    }
    None
}

/// The tokenizer. It holds no state: the patterns it recognizes are fixed.
pub struct Parser {}

impl Parser {
    /// Makes a tokenizer.
    pub fn new() -> Parser {
        Parser {}
    }

    /// Tokenizes `input`, left to right, into the symbols of [`tokens_of`].
    /// The whole text is always consumed: unrecognized characters are
    /// dropped, never reported.
    pub fn parse(&self, input: &str) -> (r: Vec<Symbol>)
        ensures
            r@ == tokens_of(input@),
    {
        let cs = chars_of(input);
        let n: usize = cs.len();
        let mut out: Vec<Symbol> = Vec::new();
        let mut i: usize = 0;
        proof {
            assert(cs@.skip(0) =~= cs@);
        }
        while i < n
            invariant
                cs@ == input@,
                n == cs@.len(),
                i <= n,
                out@ + tokens_of(cs@.skip(i as int)) == tokens_of(cs@),
            decreases n - i,
        {
            let ghost prev_out = out@;
            let ghost s = cs@.skip(i as int);
            let c = cs[i];
            let u: u32 = c as u32;
            proof {
                assert(s[0] == cs@[i as int]);
                assert(s.skip(1) =~= cs@.skip(i as int + 1));
            }
            if 48 <= u && u <= 57 {
                let (dend, maybe_val) = scan_digits(&cs, i);
                let wend = scan_spaces(&cs, dend);
                let ghost d = digit_run(s);
                let ghost w = space_run(cs@.skip(dend as int));
                let ghost v = digits_value(s.take(d));
                proof {
                    lemma_digit_run_le(s);
                    assert(s.skip(d) =~= cs@.skip(dend as int));
                    lemma_space_run_le(cs@.skip(dend as int));
                    assert(s.skip(d + w) =~= cs@.skip(wend as int));
                    assert(space_run(s.skip(d)) == w);
                }
                match match_unit(&cs, wend) {
                    Some((uend, mult)) => {
                        proof {
                            assert(unit_match(s.skip(d + w)) == Some((uend - wend, mult)));
                            assert(s.skip(d + w + (uend - wend)) =~= cs@.skip(uend as int));
                        }
                        let ghost rest = tokens_of(cs@.skip(uend as int));
                        match maybe_val {
                            Some(value) => {
                                match value.checked_mul(mult) {
                                    Some(q) => {
                                        out.push(Symbol::Quantity(q));
                                        proof {
                                            assert(tokens_of(s) == seq![Symbol::Quantity(q)]
                                                + rest);
                                            assert(out@ =~= prev_out + seq![Symbol::Quantity(q)]);
                                            assert(out@ + rest =~= prev_out + tokens_of(s));
                                        }
                                    },
                                    None => {
                                        proof {
                                            assert(v * mult > u64::MAX);
                                            assert(tokens_of(s) == rest);
                                        }
                                    },
                                }
                            },
                            None => {
                                proof {
                                    assert(mult >= 1);
                                    assert(v > u64::MAX);
                                    assert(v * mult >= v * 1) by (nonlinear_arith)
                                        requires
                                            v > u64::MAX,
                                            mult >= 1,
                                    ;
                                    assert(tokens_of(s) == rest);
                                }
                            },
                        }
                        i = uend;
                    },
                    None => {
                        proof {
                            assert(unit_match(s.skip(d + w)) is None);
                        }
                        let ghost rest = tokens_of(cs@.skip(dend as int));
                        match maybe_val {
                            Some(value) => {
                                out.push(Symbol::Number(value));
                                proof {
                                    assert(tokens_of(s) == seq![Symbol::Number(value)] + rest);
                                    assert(out@ =~= prev_out + seq![Symbol::Number(value)]);
                                    assert(out@ + rest =~= prev_out + tokens_of(s));
                                }
                            },
                            None => {
                                proof {
                                    assert(v > u64::MAX);
                                    assert(tokens_of(s) == rest);
                                }
                            },
                        }
                        i = dend;
                    },
                }
            } else if c == '+' {
                out.push(Symbol::Operator(OperatorKind::Add));
                i = i + 1;
                proof {
                    assert(tokens_of(s) == seq![Symbol::Operator(OperatorKind::Add)] + tokens_of(
                        cs@.skip(i as int),
                    ));
                    assert(out@ =~= prev_out + seq![Symbol::Operator(OperatorKind::Add)]);
                    assert(out@ + tokens_of(cs@.skip(i as int)) =~= prev_out + tokens_of(s));
                }
            } else if c == '-' {
                out.push(Symbol::Operator(OperatorKind::Subtract));
                i = i + 1;
                proof {
                    assert(tokens_of(s) == seq![Symbol::Operator(OperatorKind::Subtract)]
                        + tokens_of(cs@.skip(i as int)));
                    assert(out@ =~= prev_out + seq![Symbol::Operator(OperatorKind::Subtract)]);
                    assert(out@ + tokens_of(cs@.skip(i as int)) =~= prev_out + tokens_of(s));
                }
            } else if c == '*' {
                out.push(Symbol::Operator(OperatorKind::Multiply));
                i = i + 1;
                proof {
                    assert(tokens_of(s) == seq![Symbol::Operator(OperatorKind::Multiply)]
                        + tokens_of(cs@.skip(i as int)));
                    assert(out@ =~= prev_out + seq![Symbol::Operator(OperatorKind::Multiply)]);
                    assert(out@ + tokens_of(cs@.skip(i as int)) =~= prev_out + tokens_of(s));
                }
            } else if c == '/' {
                out.push(Symbol::Operator(OperatorKind::Divide));
                i = i + 1;
                proof {
                    assert(tokens_of(s) == seq![Symbol::Operator(OperatorKind::Divide)] + tokens_of(
                        cs@.skip(i as int),
                    ));
                    assert(out@ =~= prev_out + seq![Symbol::Operator(OperatorKind::Divide)]);
                    assert(out@ + tokens_of(cs@.skip(i as int)) =~= prev_out + tokens_of(s));
                }
            } else {
                i = i + 1;
                proof {
                    assert(tokens_of(s) == tokens_of(cs@.skip(i as int)));
                }
            }
        }
        proof {
            assert(cs@.skip(n as int) =~= Seq::<char>::empty());
        }
        out
    }
}

} // verus!
