//! Text-to-instruction parsing: one instruction per line, whitespace-delimited
//! tokens, operands that are register names (`a`..`d`) or signed decimal
//! literals.

use vstd::prelude::*;
use vstd::string::StrSliceExecFns;
use vstd::string::StringExecFns;

use crate::instr::Instruction;
use crate::instr::Operand;

verus! {

/// A line or token the parser cannot accept, carrying the offending text.
#[derive(Debug, PartialEq, Eq)]
pub enum ParseError {
    /// A token that is neither a register name nor an in-range decimal literal.
    UnknownOperand { token: String },
    /// A line that matches no recognised instruction form.
    UnrecognisedInstruction { line: String },
}

/// An ASCII decimal digit.
pub open spec fn is_digit(c: char) -> bool {
    '0' as u32 <= c as u32 <= '9' as u32
}

/// The numeric value of a digit string, most significant digit first.
pub open spec fn digits_val(s: Seq<char>) -> int
    decreases s.len(),
{
    if s.len() == 0 {
        0
    } else {
        digits_val(s.drop_last()) * 10 + (s.last() as u32 - '0' as u32)
    }
}

pub open spec fn all_digits(s: Seq<char>) -> bool {
    forall|i: int| 0 <= i < s.len() ==> is_digit(#[trigger] s[i])
}

/// A signed decimal integer literal: an optional sign followed by at least
/// one digit.
pub open spec fn is_int_literal(s: Seq<char>) -> bool {
    if s.len() == 0 {
        false
    } else if s[0] == '-' || s[0] == '+' {
        s.len() > 1 && all_digits(s.skip(1))
    } else {
        all_digits(s)
    }
}

/// The value of an integer literal.
pub open spec fn literal_val(s: Seq<char>) -> int
    recommends
        is_int_literal(s),
{
    if s.len() > 0 && s[0] == '-' {
        -digits_val(s.skip(1))
    } else if s.len() > 0 && s[0] == '+' {
        digits_val(s.skip(1))
    } else {
        digits_val(s)
    }
}

/// What a token denotes as an operand: one of the four register names, or a
/// decimal literal whose value fits a 32-bit signed integer; anything else is
/// not an operand.
pub open spec fn spec_operand(s: Seq<char>) -> Option<Operand> {
    if s.len() == 1 && s[0] == 'a' {
        Some(Operand::Register(0))
    } else if s.len() == 1 && s[0] == 'b' {
        Some(Operand::Register(1))
    } else if s.len() == 1 && s[0] == 'c' {
        Some(Operand::Register(2))
    } else if s.len() == 1 && s[0] == 'd' {
        Some(Operand::Register(3))
    } else if is_int_literal(s) && i32::MIN <= literal_val(s) <= i32::MAX {
        Some(Operand::Literal(literal_val(s) as i32))
    } else {
        None
    }
}

pub proof fn lemma_digits_val_nonneg(s: Seq<char>)
    requires
        all_digits(s),
    ensures
        digits_val(s) >= 0,
    decreases s.len(),
{
    if s.len() > 0 {
        assert(all_digits(s.drop_last()));
        lemma_digits_val_nonneg(s.drop_last());
    }
}

impl Operand {
    /// Parses one token as an operand: a register name maps to its register,
    /// any other token must be a signed decimal literal that fits a 32-bit
    /// signed integer; everything else is an `UnknownOperand` error carrying
    /// the token.
    pub fn parse(token: &str) -> (r: Result<Operand, ParseError>)
        ensures
            r is Ok <==> spec_operand(token@) is Some,
            r matches Ok(op) ==> spec_operand(token@) == Some(op),
            r matches Err(e) ==> e matches ParseError::UnknownOperand { token: t } && t@
                == token@,
    {
        let n = token.unicode_len();
        if n == 1 {
            let c = token.get_char(0);
            if c == 'a' {
                return Ok(Operand::Register(0));
            }
            if c == 'b' {
                return Ok(Operand::Register(1));
            }
            if c == 'c' {
                return Ok(Operand::Register(2));
            }
            if c == 'd' {
                return Ok(Operand::Register(3));
            }
        }
        if n == 0 {
            return Err(ParseError::UnknownOperand { token: String::from_str(token) });
        }
        let first = token.get_char(0);
        let negative = first == '-';
        let start: usize = if first == '-' || first == '+' {
            1
        } else {
            0
        };
        if start == n {
            // a bare sign has no digits
            return Err(ParseError::UnknownOperand { token: String::from_str(token) });
        }

        let mut i: usize = start;
        let mut magnitude: u64 = 0;
        let mut over: bool = false;
        while i < n
            invariant
                start <= i <= n,
                n == token@.len(),
                start == 0 || start == 1,
                start == 1 <==> (token@[0] == '-' || token@[0] == '+'),
                !(token@.len() == 1 && (token@[0] == 'a' || token@[0] == 'b' || token@[0] == 'c'
                    || token@[0] == 'd')),
                forall|k: int| start <= k < i ==> is_digit(#[trigger] token@[k]),
                !over ==> magnitude == digits_val(token@.subrange(start as int, i as int))
                    && magnitude <= 0x8000_0000u64,
                over ==> digits_val(token@.subrange(start as int, i as int)) > 0x8000_0000,
            decreases n - i,
        {
            let c = token.get_char(i);
            let cu = c as u32;
            if !('0' as u32 <= cu && cu <= '9' as u32) {
                proof {
                    assert(!is_digit(token@[i as int]));
                    if start == 1 {
                        assert(token@[0] == '-' || token@[0] == '+');
                        assert(token@.skip(1)[i as int - 1] == token@[i as int]);
                        assert(!is_digit(token@.skip(1)[i as int - 1]));
                        assert(!all_digits(token@.skip(1)));
                    } else {
                        assert(token@[0] != '-' && token@[0] != '+');
                        assert(!all_digits(token@));
                    }
                    assert(!is_int_literal(token@));
                }
                return Err(ParseError::UnknownOperand { token: String::from_str(token) });
            }
            let d: u64 = (cu - '0' as u32) as u64;
            proof {
                let pre = token@.subrange(start as int, i as int);
                let cur = token@.subrange(start as int, i as int + 1);
                assert(cur.drop_last() =~= pre);
                assert(cur.last() == token@[i as int]);
                assert(all_digits(pre));
                lemma_digits_val_nonneg(pre);
            }
            if over {
                // the value already exceeds the 32-bit range; it only grows
            } else {
                let next = magnitude * 10 + d;
                if next > 0x8000_0000 {
                    over = true;
                } else {
                    magnitude = next;
                }
                proof {
                    let pre = token@.subrange(start as int, i as int);
                    let cur = token@.subrange(start as int, i as int + 1);
                    assert(digits_val(cur) == digits_val(pre) * 10 + (token@[i as int] as u32
                        - '0' as u32));
                }
            }
            i = i + 1;
        }

        proof {
            assert(token@.subrange(start as int, n as int) =~= token@.skip(start as int));
            if start == 1 {
                assert(is_int_literal(token@));
            } else {
                assert(token@.skip(0) =~= token@);
                assert(is_int_literal(token@));
            }
        }

        if negative {
            if over || magnitude > 0x8000_0000 {
                assert(literal_val(token@) < i32::MIN);
                return Err(ParseError::UnknownOperand { token: String::from_str(token) });
            }
            let v: i64 = -(magnitude as i64);
            assert(v as int == literal_val(token@));
            Ok(Operand::Literal(v as i32))
        } else {
            if over || magnitude > 0x7FFF_FFFF {
                assert(literal_val(token@) > i32::MAX);
                return Err(ParseError::UnknownOperand { token: String::from_str(token) });
            }
            assert(magnitude as int == literal_val(token@));
            Ok(Operand::Literal(magnitude as i32))
        }
    }
}

/// Length of the leading run of non-space characters.
pub open spec fn token_len(s: Seq<char>) -> nat
    decreases s.len(),
{
    if s.len() == 0 || s[0] == ' ' {
        0
    } else {
        1 + token_len(s.skip(1))
    }
}

pub proof fn lemma_token_len_le(s: Seq<char>)
    ensures
        token_len(s) <= s.len(),
    decreases s.len(),
{
    if s.len() > 0 && s[0] != ' ' {
        lemma_token_len_le(s.skip(1));
    }
}

/// If the first `k` characters are non-spaces and position `k` is a space or
/// the end, the leading token has length exactly `k`.
proof fn lemma_token_len_exact(s: Seq<char>, k: int)
    requires
        0 <= k <= s.len(),
        forall|t: int| 0 <= t < k ==> s[t] != ' ',
        k == s.len() || s[k] == ' ',
    ensures
        token_len(s) == k,
    decreases k,
{
    if k > 0 {
        let s1 = s.skip(1);
        assert(forall|t: int| 0 <= t < k - 1 ==> s1[t] == s[t + 1] && s1[t] != ' ');
        assert(k - 1 == s1.len() || s1[k - 1] == ' ');
        lemma_token_len_exact(s1, k - 1);
    }
}

/// The whitespace-delimited tokens of a line, in order. Runs of spaces
/// separate tokens; leading and trailing spaces produce no tokens.
pub open spec fn tokens_of(s: Seq<char>) -> Seq<Seq<char>>
    decreases s.len(),
{
    if s.len() == 0 {
        Seq::empty()
    } else if s[0] == ' ' {
        tokens_of(s.skip(1))
    } else {
        let k = token_len(s) as int;
        if k <= s.len() {
            seq![s.take(k)] + tokens_of(s.skip(k))
        } else {
            Seq::empty()
        }
    }
}

/// Splits a line into its whitespace-delimited tokens.
pub fn split_tokens<'a>(s: &'a str) -> (r: Vec<&'a str>)
    ensures
        r@.map_values(|t: &str| t@) == tokens_of(s@),
{
    let n = s.unicode_len();
    let mut toks: Vec<&'a str> = Vec::new();
    let mut i: usize = 0;
    proof {
        assert(s@.skip(0) =~= s@);
        assert(toks@.map_values(|t: &str| t@) + tokens_of(s@) =~= tokens_of(s@));
    }
    while i < n
        invariant
            i <= n,
            n == s@.len(),
            tokens_of(s@) == toks@.map_values(|t: &str| t@) + tokens_of(s@.skip(i as int)),
        decreases n - i,
    {
        let c = s.get_char(i);
        if c == ' ' {
            proof {
                assert(s@.skip(i as int).skip(1) =~= s@.skip(i as int + 1));
            }
            i = i + 1;
        } else {
            let mut j: usize = i + 1;
            while j < n && s.get_char(j) != ' '
                invariant
                    i < j <= n,
                    n == s@.len(),
                    forall|k: int| i <= k < j ==> s@[k] != ' ',
                decreases n - j,
            {
                j = j + 1;
            }
            let token = s.substring_char(i, j);
            proof {
                let rest = s@.skip(i as int);
                assert(forall|t: int| 0 <= t < j - i ==> rest[t] == s@[t + i] && rest[t] != ' ');
                if j < n {
                    assert(rest[j - i] == s@[j as int]);
                }
                lemma_token_len_exact(rest, j - i);
                assert(rest.take(j - i) =~= token@);
                assert(rest.skip(j - i) =~= s@.skip(j as int));
                assert(tokens_of(rest) == seq![token@] + tokens_of(s@.skip(j as int)));
                assert(toks@.push(token).map_values(|t: &str| t@) =~= toks@.map_values(
                    |t: &str| t@,
                ).push(token@));
                assert((toks@.map_values(|t: &str| t@).push(token@)) + tokens_of(
                    s@.skip(j as int),
                ) =~= toks@.map_values(|t: &str| t@) + (seq![token@] + tokens_of(
                    s@.skip(j as int),
                )));
            }
            toks.push(token);
            i = j;
        }
    }
    proof {
        assert(s@.skip(n as int) =~= Seq::<char>::empty());
        assert(toks@.map_values(|t: &str| t@) + tokens_of(s@.skip(n as int)) =~= toks@.map_values(
            |t: &str| t@,
        ));
    }
    toks
}

/// Length of the leading run of non-newline characters.
pub open spec fn line_len(s: Seq<char>) -> nat
    decreases s.len(),
{
    if s.len() == 0 || s[0] == '\n' {
        0
    } else {
        1 + line_len(s.skip(1))
    }
}

pub proof fn lemma_line_len_le(s: Seq<char>)
    ensures
        line_len(s) <= s.len(),
    decreases s.len(),
{
    if s.len() > 0 && s[0] != '\n' {
        lemma_line_len_le(s.skip(1));
    }
}

proof fn lemma_line_len_exact(s: Seq<char>, k: int)
    requires
        0 <= k <= s.len(),
        forall|t: int| 0 <= t < k ==> s[t] != '\n',
        k == s.len() || s[k] == '\n',
    ensures
        line_len(s) == k,
    decreases k,
{
    if k > 0 {
        let s1 = s.skip(1);
        assert(forall|t: int| 0 <= t < k - 1 ==> s1[t] == s[t + 1] && s1[t] != '\n');
        assert(k - 1 == s1.len() || s1[k - 1] == '\n');
        lemma_line_len_exact(s1, k - 1);
    }
}

/// The lines of a text, split on `'\n'`. Interior empty lines are kept; a
/// trailing newline does not produce a final empty line.
pub open spec fn lines_of(s: Seq<char>) -> Seq<Seq<char>>
    decreases s.len(),
{
    if s.len() == 0 {
        Seq::empty()
    } else {
        let k = line_len(s) as int;
        if k == s.len() {
            seq![s]
        } else if k < s.len() {
            seq![s.take(k)] + lines_of(s.skip(k + 1))
        } else {
            Seq::empty()
        }
    }
}

/// Splits a text into lines on `'\n'`, as `lines_of` describes.
pub fn split_lines<'a>(s: &'a str) -> (r: Vec<&'a str>)
    ensures
        r@.map_values(|t: &str| t@) == lines_of(s@),
{
    let n = s.unicode_len();
    let mut out: Vec<&'a str> = Vec::new();
    let mut i: usize = 0;
    proof {
        assert(s@.skip(0) =~= s@);
        assert(out@.map_values(|t: &str| t@) + lines_of(s@) =~= lines_of(s@));
    }
    while i < n
        invariant
            i <= n,
            n == s@.len(),
            lines_of(s@) == out@.map_values(|t: &str| t@) + lines_of(s@.skip(i as int)),
        decreases n - i,
    {
        let mut j: usize = i;
        while j < n && s.get_char(j) != '\n'
            invariant
                i <= j <= n,
                n == s@.len(),
                forall|k: int| i <= k < j ==> s@[k] != '\n',
            decreases n - j,
        {
            j = j + 1;
        }
        let line = s.substring_char(i, j);
        proof {
            let rest = s@.skip(i as int);
            assert(forall|t: int| 0 <= t < j - i ==> rest[t] == s@[t + i] && rest[t] != '\n');
            if j < n {
                assert(rest[j - i] == s@[j as int]);
            }
            lemma_line_len_exact(rest, j - i);
            assert(rest.take(j - i) =~= line@);
            if j < n {
                assert(rest.skip(j - i + 1) =~= s@.skip(j as int + 1));
                assert(lines_of(rest) == seq![line@] + lines_of(s@.skip(j as int + 1)));
            } else {
                assert(rest =~= line@);
                assert(lines_of(rest) == seq![line@]);
                assert(lines_of(s@.skip(n as int)) =~= Seq::<Seq<char>>::empty());
            }
            assert(out@.push(line).map_values(|t: &str| t@) =~= out@.map_values(
                |t: &str| t@,
            ).push(line@));
            if j < n {
                assert((out@.map_values(|t: &str| t@).push(line@)) + lines_of(
                    s@.skip(j as int + 1),
                ) =~= out@.map_values(|t: &str| t@) + (seq![line@] + lines_of(
                    s@.skip(j as int + 1),
                )));
            } else {
                assert((out@.map_values(|t: &str| t@).push(line@)) + lines_of(s@.skip(n as int))
                    =~= out@.map_values(|t: &str| t@) + seq![line@]);
            }
        }
        out.push(line);
        if j < n {
            i = j + 1;
        } else {
            i = j;
        }
    }
    proof {
        assert(s@.skip(n as int) =~= Seq::<char>::empty());
        assert(out@.map_values(|t: &str| t@) + lines_of(s@.skip(n as int)) =~= out@.map_values(
            |t: &str| t@,
        ));
    }
    out
}

} // verus!


verus! {

/// True when a token is exactly the three given characters.
fn token_is(t: &str, c0: char, c1: char, c2: char) -> (r: bool)
    ensures
        r == (t@ == seq![c0, c1, c2]),
{
    if t.unicode_len() == 3 {
        let r = t.get_char(0) == c0 && t.get_char(1) == c1 && t.get_char(2) == c2;
        proof {
            if r {
                assert(t@ =~= seq![c0, c1, c2]);
            } else {
                assert(seq![c0, c1, c2][0] == c0 && seq![c0, c1, c2][1] == c1 && seq![
                    c0,
                    c1,
                    c2,
                ][2] == c2);
            }
        }
        r
    } else {
        proof {
            assert(seq![c0, c1, c2].len() == 3);
        }
        false
    }
}

/// A line has the shape of an instruction: a recognised mnemonic with the
/// right number of operand tokens.
pub open spec fn spec_line_shape(s: Seq<char>) -> bool {
    let ts = tokens_of(s);
    ||| (ts.len() == 2 && (ts[0] == seq!['i', 'n', 'c'] || ts[0] == seq!['d', 'e', 'c'] || ts[0]
        == seq!['t', 'g', 'l'] || ts[0] == seq!['o', 'u', 't']))
    ||| (ts.len() == 3 && (ts[0] == seq!['c', 'p', 'y'] || ts[0] == seq!['j', 'n', 'z']))
}

/// What a line denotes as an instruction, if anything: a recognised mnemonic
/// whose operand tokens all parse.
pub open spec fn spec_instruction(s: Seq<char>) -> Option<Instruction> {
    let ts = tokens_of(s);
    if ts.len() == 2 && ts[0] == seq!['i', 'n', 'c'] {
        match spec_operand(ts[1]) {
            Some(op) => Some(Instruction::Inc { reg: op }),
            None => None,
        }
    } else if ts.len() == 2 && ts[0] == seq!['d', 'e', 'c'] {
        match spec_operand(ts[1]) {
            Some(op) => Some(Instruction::Dec { reg: op }),
            None => None,
        }
    } else if ts.len() == 2 && ts[0] == seq!['t', 'g', 'l'] {
        match spec_operand(ts[1]) {
            Some(op) => Some(Instruction::Toggle { reg: op }),
            None => None,
        }
    } else if ts.len() == 2 && ts[0] == seq!['o', 'u', 't'] {
        match spec_operand(ts[1]) {
            Some(op) => Some(Instruction::Out { operand: op }),
            None => None,
        }
    } else if ts.len() == 3 && ts[0] == seq!['c', 'p', 'y'] {
        match (spec_operand(ts[1]), spec_operand(ts[2])) {
            (Some(a), Some(b)) => Some(Instruction::Copy { source: a, target: b }),
            _ => None,
        }
    } else if ts.len() == 3 && ts[0] == seq!['j', 'n', 'z'] {
        match (spec_operand(ts[1]), spec_operand(ts[2])) {
            (Some(a), Some(b)) => Some(Instruction::JumpNotZero { check: a, delta: b }),
            _ => None,
        }
    } else {
        None
    }
}

impl Instruction {
    /// Parses one line as an instruction. A line that matches no recognised
    /// form is an `UnrecognisedInstruction` error carrying the line; a
    /// well-shaped line with a bad operand token is an `UnknownOperand` error
    /// carrying that token.
    pub fn parse(line: &str) -> (r: Result<Instruction, ParseError>)
        ensures
            r is Ok <==> spec_instruction(line@) is Some,
            r matches Ok(i) ==> spec_instruction(line@) == Some(i),
            !spec_line_shape(line@) ==> ({
                &&& r matches Err(ParseError::UnrecognisedInstruction { line: l })
                &&& l@ == line@
            }),
            spec_line_shape(line@) && spec_instruction(line@) is None ==> ({
                &&& r matches Err(ParseError::UnknownOperand { token: t })
                &&& spec_operand(t@) is None
                &&& tokens_of(line@).contains(t@)
            }),
    {
        let toks = split_tokens(line);
        let ghost ts = tokens_of(line@);
        if toks.len() == 2 {
            proof {
                assert(toks@.map_values(|t: &str| t@)[0] == ts[0]);
                assert(toks@.map_values(|t: &str| t@)[1] == ts[1]);
            }
            let mnemonic = toks[0];
            if token_is(mnemonic, 'i', 'n', 'c') {
                return match Operand::parse(toks[1]) {
                    Ok(op) => Ok(Instruction::Inc { reg: op }),
                    Err(e) => {
                        proof {
                            assert(ts.contains(ts[1]));
                        }
                        Err(e)
                    },
                };
            }
            if token_is(mnemonic, 'd', 'e', 'c') {
                return match Operand::parse(toks[1]) {
                    Ok(op) => Ok(Instruction::Dec { reg: op }),
                    Err(e) => {
                        proof {
                            assert(ts.contains(ts[1]));
                        }
                        Err(e)
                    },
                };
            }
            if token_is(mnemonic, 't', 'g', 'l') {
                return match Operand::parse(toks[1]) {
                    Ok(op) => Ok(Instruction::Toggle { reg: op }),
                    Err(e) => {
                        proof {
                            assert(ts.contains(ts[1]));
                        }
                        Err(e)
                    },
                };
            }
            if token_is(mnemonic, 'o', 'u', 't') {
                return match Operand::parse(toks[1]) {
                    Ok(op) => Ok(Instruction::Out { operand: op }),
                    Err(e) => {
                        proof {
                            assert(ts.contains(ts[1]));
                        }
                        Err(e)
                    },
                };
            }
        } else if toks.len() == 3 {
            proof {
                assert(toks@.map_values(|t: &str| t@)[0] == ts[0]);
                assert(toks@.map_values(|t: &str| t@)[1] == ts[1]);
                assert(toks@.map_values(|t: &str| t@)[2] == ts[2]);
            }
            let mnemonic = toks[0];
            if token_is(mnemonic, 'c', 'p', 'y') {
                let a = match Operand::parse(toks[1]) {
                    Ok(op) => op,
                    Err(e) => {
                        proof {
                            assert(ts.contains(ts[1]));
                        }
                        return Err(e);
                    },
                };
                let b = match Operand::parse(toks[2]) {
                    Ok(op) => op,
                    Err(e) => {
                        proof {
                            assert(ts.contains(ts[2]));
                        }
                        return Err(e);
                    },
                };
                return Ok(Instruction::Copy { source: a, target: b });
            }
            if token_is(mnemonic, 'j', 'n', 'z') {
                let a = match Operand::parse(toks[1]) {
                    Ok(op) => op,
                    Err(e) => {
                        proof {
                            assert(ts.contains(ts[1]));
                        }
                        return Err(e);
                    },
                };
                let b = match Operand::parse(toks[2]) {
                    Ok(op) => op,
                    Err(e) => {
                        proof {
                            assert(ts.contains(ts[2]));
                        }
                        return Err(e);
                    },
                };
                return Ok(Instruction::JumpNotZero { check: a, delta: b });
            }
        }
        Err(ParseError::UnrecognisedInstruction { line: String::from_str(line) })
    }
}

/// The error the parser reports for a given bad line: either the line itself
/// (no recognised shape) or one of its operand tokens (shape recognised, token
/// not an operand).
pub open spec fn parse_error_for(e: ParseError, line: Seq<char>) -> bool {
    match e {
        ParseError::UnrecognisedInstruction { line: l } => l@ == line && !spec_line_shape(line),
        ParseError::UnknownOperand { token: t } => spec_line_shape(line) && spec_operand(t@)
            is None && tokens_of(line).contains(t@),
    }
}

/// Parses a whole program: one instruction per line. The result is the
/// instruction of every line, in order; the first line that fails to parse is
/// reported instead.
pub fn parse(file: &str) -> (r: Result<Vec<Instruction>, ParseError>)
    ensures
        ({
            let ls = lines_of(file@);
            &&& (r is Ok <==> (forall|i: int|
                0 <= i < ls.len() ==> (#[trigger] spec_instruction(ls[i])) is Some))
            &&& (r matches Ok(v) ==> v@.len() == ls.len() && (forall|i: int|
                0 <= i < ls.len() ==> #[trigger] v@[i] == spec_instruction(ls[i]).unwrap()))
            &&& (r matches Err(e) ==> exists|i: int|
                {
                    &&& 0 <= i < ls.len()
                    &&& (#[trigger] spec_instruction(ls[i])) is None
                    &&& (forall|j: int| 0 <= j < i ==> (#[trigger] spec_instruction(ls[j])) is Some)
                    &&& parse_error_for(e, ls[i])
                })
        }),
{
    let lines = split_lines(file);
    let ghost ls = lines_of(file@);
    let mut prog: Vec<Instruction> = Vec::new();
    let mut i: usize = 0;
    while i < lines.len()
        invariant
            lines@.map_values(|t: &str| t@) == ls,
            ls == lines_of(file@),
            i <= lines@.len(),
            prog@.len() == i,
            forall|j: int|
                0 <= j < i ==> (#[trigger] spec_instruction(ls[j])) is Some && prog@[j]
                    == spec_instruction(ls[j]).unwrap(),
        decreases lines@.len() - i,
    {
        proof {
            assert(lines@.map_values(|t: &str| t@)[i as int] == ls[i as int]);
        }
        match Instruction::parse(lines[i]) {
            Ok(ins) => {
                prog.push(ins);
            },
            Err(e) => {
                proof {
                    assert(spec_instruction(ls[i as int]) is None);
                    assert(parse_error_for(e, ls[i as int]));
                }
                return Err(e);
            },
        }
        i = i + 1;
    }
    Ok(prog)
}

} // verus!

verus! {

/// The parser only ever produces the six atomic instruction forms: a parsed
/// program is a canonical program, with no optimiser-synthesized
/// instructions in it.
pub proof fn lemma_parsed_instruction_is_atomic(s: Seq<char>)
    ensures
        spec_instruction(s) matches Some(i) ==> !crate::instr::is_synthesized(i),
{
}

} // verus!
