//! The two-pass assembler: translates the CHIP-8 mnemonic language into
//! the 16-bit opcode encoding of the opcode table, resolving
//! forward-referenced labels.
//!
//! Line grammar: one instruction, label definition (`name:`) or blank per
//! line; `;` begins a comment running to the end of the line; operands are
//! separated by spaces with an optional trailing comma consumed by the
//! tokenizer. An operand `V` followed by a hex digit is a register, a
//! `0x`-prefixed or decimal numeral is an immediate, the bare names `I`,
//! `DT`, `ST`, `K`, `F` and `B` are special operands, and any other bare
//! token is a label reference.

use vstd::arithmetic::mul::lemma_mul_nonnegative;
use vstd::prelude::*;
use vstd::string::StrSliceExecFns;

use crate::instr::{encode_instr, spec_encode, Instr};
use crate::labels::LabelTable;

verus! {

/// The outcome of parsing one source line that yields no opcode.
#[derive(Clone, Copy, Debug, PartialEq, Eq, Structural)]
pub enum OpcodeError {
    /// The line produces no opcode and occupies no memory slot: it is
    /// blank, a comment, or a label definition.
    NoOpcode,
    /// The line references a label that is not yet in the table; it is
    /// retained and retried in the second pass.
    Incomplete,
    /// The mnemonic and its operands do not compose a valid opcode: a
    /// fatal assembly error, never retried.
    Malformed,
}

/// Why an operand could not be resolved to an address.
#[derive(Clone, Copy, Debug, PartialEq, Eq, Structural)]
pub enum AddressError {
    /// The operand is a label reference not (yet) in the table.
    UnknownLabel,
    /// The operand is a numeric address with bad digits or out of the
    /// 12-bit range.
    Invalid,
}

/// A fatal assembly failure, identifying the offending source line.
#[derive(Debug)]
pub enum AsmError {
    /// A line whose mnemonic and operands compose no valid opcode.
    Malformed { line: String },
    /// A line still unresolvable in the second pass: an undefined label.
    Undefined { line: String },
    /// The program ran past the end of the 4096-byte memory image.
    TooLarge,
}

/// The spec-level counterpart of `AsmError`, over character sequences.
pub enum SpecAsmError {
    Malformed { line: Seq<char> },
    Undefined { line: Seq<char> },
    TooLarge,
}

/// The specification-level reading of a reported assembly error.
pub open spec fn spec_err_of(e: AsmError) -> SpecAsmError {
    match e {
        AsmError::Malformed { line } => SpecAsmError::Malformed { line: line@ },
        AsmError::Undefined { line } => SpecAsmError::Undefined { line: line@ },
        AsmError::TooLarge => SpecAsmError::TooLarge,
    }
}

/// Whether the reported error matches the specified one, variant by
/// variant, with the same offending line text.
pub open spec fn asm_err_matches(e: AsmError, se: SpecAsmError) -> bool {
    spec_err_of(e) == se
}

/// The numeric value of a hexadecimal digit, or 16 for any other
/// character.
pub open spec fn spec_hex_val(c: char) -> u8 {
    if '0' <= c && c <= '9' {
        (c as u8 - '0' as u8) as u8
    } else if 'A' <= c && c <= 'F' {
        (c as u8 - 'A' as u8 + 10) as u8
    } else if 'a' <= c && c <= 'f' {
        (c as u8 - 'a' as u8 + 10) as u8
    } else {
        16
    }
}

/// Whether `c` is a hexadecimal digit in either case.
pub open spec fn spec_is_hex_digit(c: char) -> bool {
    spec_hex_val(c) < 16
}

/// Evaluates a hexadecimal digit; returns 16 when `c` is not one.
pub fn hex_val(c: char) -> (r: u8)
    ensures
        r == spec_hex_val(c),
{
    if '0' <= c && c <= '9' {
        c as u8 - '0' as u8
    } else if 'A' <= c && c <= 'F' {
        c as u8 - 'A' as u8 + 10
    } else if 'a' <= c && c <= 'f' {
        c as u8 - 'a' as u8 + 10
    } else {
        16
    }
}

/// The characters of `s`, one by one.
pub fn to_chars(s: &str) -> (v: Vec<char>)
    ensures
        v@ == s@,
{
    let n = s.unicode_len();
    let mut v: Vec<char> = Vec::new();
    let mut i: usize = 0;
    while i < n
        invariant
            n == s@.len(),
            i <= n,
            v@.len() == i,
            forall|j: int| 0 <= j < i ==> v@[j] == s@[j],
        decreases n - i,
    {
        let c = s.get_char(i);
        v.push(c);
        i += 1;
    }
    proof {
        assert(v@ =~= s@);
    }
    v
}

/// The views of a column of character vectors.
spec fn views_of(ts: Seq<Vec<char>>) -> Seq<Seq<char>> {
    Seq::new(ts.len(), |i: int| ts[i]@)
}

/// The raw tokens of a line, scanning from position `i` with the partial
/// token `cur` in hand: tokens are maximal runs of non-space characters,
/// and a `;` ends the line.
pub open spec fn spec_raw_tokens(s: Seq<char>, i: nat, cur: Seq<char>) -> Seq<Seq<char>>
    decreases s.len() - i,
{
    if i >= s.len() || s[i as int] == ';' {
        if cur.len() > 0 {
            seq![cur]
        } else {
            seq![]
        }
    } else if s[i as int] == ' ' {
        (if cur.len() > 0 {
            seq![cur]
        } else {
            seq![]
        }) + spec_raw_tokens(s, i + 1, seq![])
    } else {
        spec_raw_tokens(s, i + 1, cur.push(s[i as int]))
    }
}

/// A token with one trailing comma removed, as the tokenizer consumes it.
pub open spec fn spec_strip_comma(t: Seq<char>) -> Seq<char> {
    if t.len() > 0 && t.last() == ',' {
        t.drop_last()
    } else {
        t
    }
}

/// Tokens after comma removal, with tokens that became empty dropped.
pub open spec fn spec_clean(ts: Seq<Seq<char>>) -> Seq<Seq<char>>
    decreases ts.len(),
{
    if ts.len() == 0 {
        seq![]
    } else {
        let rest = spec_clean(ts.drop_last());
        let t = spec_strip_comma(ts.last());
        if t.len() > 0 {
            rest.push(t)
        } else {
            rest
        }
    }
}

/// The operand tokens of a source line: comment stripped, split on
/// spaces, trailing commas consumed.
pub open spec fn spec_line_tokens(line: Seq<char>) -> Seq<Seq<char>> {
    spec_clean(spec_raw_tokens(line, 0, seq![]))
}

/// Splits a source line into its tokens.
fn tokenize_line(line: &Vec<char>) -> (r: Vec<Vec<char>>)
    ensures
        views_of(r@) == spec_line_tokens(line@),
{
    let mut raw: Vec<Vec<char>> = Vec::new();
    let mut cur: Vec<char> = Vec::new();
    let mut i: usize = 0;
    while i < line.len() && line[i] != ';'
        invariant
            i <= line@.len(),
            spec_raw_tokens(line@, 0, seq![]) == views_of(raw@) + spec_raw_tokens(
                line@,
                i as nat,
                cur@,
            ),
        decreases line@.len() - i,
    {
        if line[i] == ' ' {
            proof {
                if cur@.len() == 0 {
                    assert(cur@ =~= Seq::<char>::empty());
                    assert(Seq::<Seq<char>>::empty() + spec_raw_tokens(
                        line@,
                        (i + 1) as nat,
                        Seq::<char>::empty(),
                    ) =~= spec_raw_tokens(line@, (i + 1) as nat, Seq::<char>::empty()));
                }
            }
            if cur.len() > 0 {
                let ghost praw = raw@;
                let ghost pcur = cur@;
                raw.push(cur);
                cur = Vec::new();
                proof {
                    assert(raw@[praw.len() as int]@ == pcur);
                    assert(cur@ =~= Seq::<char>::empty());
                    assert(spec_raw_tokens(line@, i as nat, pcur) == seq![pcur]
                        + spec_raw_tokens(line@, (i + 1) as nat, Seq::<char>::empty()));
                    assert(views_of(raw@) =~= views_of(praw).push(pcur));
                    assert(views_of(raw@) + spec_raw_tokens(line@, (i + 1) as nat, cur@)
                        =~= views_of(praw) + (seq![pcur] + spec_raw_tokens(
                        line@,
                        (i + 1) as nat,
                        Seq::<char>::empty(),
                    )));
                }
            }
            proof {
                assert(spec_raw_tokens(line@, 0, seq![]) == views_of(raw@) + spec_raw_tokens(
                    line@,
                    (i + 1) as nat,
                    cur@,
                ));
            }
            i += 1;
        } else {
            let ghost pcur = cur@;
            cur.push(line[i]);
            proof {
                assert(cur@ == pcur.push(line@[i as int]));
                assert(spec_raw_tokens(line@, i as nat, pcur) == spec_raw_tokens(
                    line@,
                    (i + 1) as nat,
                    cur@,
                ));
                assert(spec_raw_tokens(line@, 0, seq![]) == views_of(raw@) + spec_raw_tokens(
                    line@,
                    (i + 1) as nat,
                    cur@,
                ));
            }
            i += 1;
        }
    }
    if cur.len() > 0 {
        let ghost praw = raw@;
        raw.push(cur);
        proof {
            assert(views_of(raw@) =~= views_of(praw).push(raw@[praw.len() as int]@));
        }
    }
    proof {
        assert(views_of(raw@) =~= spec_raw_tokens(line@, 0, seq![]));
    }
    let mut out: Vec<Vec<char>> = Vec::new();
    let mut k: usize = 0;
    while k < raw.len()
        invariant
            k <= raw@.len(),
            views_of(out@) == spec_clean(views_of(raw@).subrange(0, k as int)),
            views_of(raw@) == spec_raw_tokens(line@, 0, seq![]),
        decreases raw@.len() - k,
    {
        let mut t = raw[k].clone();
        proof {
            assert(t@ =~= raw@[k as int]@);
        }
        if t.len() > 0 && t[t.len() - 1] == ',' {
            t.pop();
        }
        proof {
            assert(t@ == spec_strip_comma(raw@[k as int]@));
        }
        let ghost pout = out@;
        if t.len() > 0 {
            out.push(t);
        }
        proof {
            let pre = views_of(raw@).subrange(0, k as int);
            let now = views_of(raw@).subrange(0, k + 1);
            assert(now.drop_last() =~= pre);
            assert(now.last() == raw@[k as int]@);
            if spec_strip_comma(raw@[k as int]@).len() > 0 {
                assert(views_of(out@) =~= views_of(pout).push(out@[pout.len() as int]@));
                assert(views_of(out@) =~= spec_clean(now));
            } else {
                assert(views_of(out@) =~= spec_clean(now));
            }
        }
        k += 1;
    }
    proof {
        assert(views_of(raw@).subrange(0, raw@.len() as int) =~= views_of(raw@));
    }
    out
}

/// The value of a digit string, most significant digit first, in the
/// given base.
pub open spec fn spec_digits_val(t: Seq<char>, base: int) -> int
    decreases t.len(),
{
    if t.len() == 0 {
        0
    } else {
        spec_digits_val(t.drop_last(), base) * base + spec_hex_val(t.last())
    }
}

/// Whether every character of `t` is a digit of the given base.
pub open spec fn spec_all_digits(t: Seq<char>, base: int) -> bool {
    forall|i: int| 0 <= i < t.len() ==> spec_hex_val(t[i]) < base
}

/// A digit string's value is never negative.
proof fn lemma_digits_val_nonneg(t: Seq<char>, base: int)
    requires
        base >= 1,
    ensures
        spec_digits_val(t, base) >= 0,
    decreases t.len(),
{
    if t.len() > 0 {
        lemma_digits_val_nonneg(t.drop_last(), base);
        lemma_mul_nonnegative(spec_digits_val(t.drop_last(), base), base);
    }
}

/// Appending digits never shrinks a digit string's value.
proof fn lemma_digits_val_grows(t: Seq<char>, base: int)
    requires
        base >= 1,
        t.len() > 0,
    ensures
        spec_digits_val(t, base) >= spec_digits_val(t.drop_last(), base),
    decreases t.len(),
{
    let v = spec_digits_val(t.drop_last(), base);
    lemma_digits_val_nonneg(t.drop_last(), base);
    assert(v * base >= v) by (nonlinear_arith)
        requires
            v >= 0,
            base >= 1,
    ;
}

/// The numeric value of an immediate token: a `0x`-prefixed hexadecimal
/// numeral or a decimal numeral, accepted only when it fits in 16 bits.
pub open spec fn spec_parse_num(t: Seq<char>) -> Option<u16> {
    if t.len() > 2 && t[0] == '0' && t[1] == 'x' && spec_all_digits(
        t.subrange(2, t.len() as int),
        16,
    ) {
        let v = spec_digits_val(t.subrange(2, t.len() as int), 16);
        if v <= 0xFFFF {
            Some(v as u16)
        } else {
            None
        }
    } else if t.len() > 0 && spec_all_digits(t, 10) {
        let v = spec_digits_val(t, 10);
        if v <= 0xFFFF {
            Some(v as u16)
        } else {
            None
        }
    } else {
        None
    }
}

/// Evaluates the digits of `t` from position `start` in the given base.
/// Returns `None` when a character is no digit of the base or the value
/// exceeds 16 bits.
fn digits_val(t: &Vec<char>, start: usize, base: u32) -> (r: Option<u16>)
    requires
        start <= t@.len(),
        base == 10 || base == 16,
    ensures
        ({
            let d = t@.subrange(start as int, t@.len() as int);
            match r {
                Some(v) => spec_all_digits(d, base as int) && spec_digits_val(d, base as int)
                    == v as int,
                None => !spec_all_digits(d, base as int) || spec_digits_val(d, base as int)
                    > 0xFFFF,
            }
        }),
{
    let mut acc: u32 = 0;
    let mut too_big = false;
    let mut i: usize = start;
    while i < t.len()
        invariant
            start <= i <= t@.len(),
            base == 10 || base == 16,
            forall|k: int| start <= k < i ==> spec_hex_val(t@[k]) < base,
            !too_big ==> acc as int == spec_digits_val(
                t@.subrange(start as int, i as int),
                base as int,
            ) && acc <= 0xFFFF,
            too_big ==> spec_digits_val(t@.subrange(start as int, i as int), base as int) > 0xFFFF,
        decreases t@.len() - i,
    {
        let d = hex_val(t[i]);
        if (d as u32) >= base {
            proof {
                let full = t@.subrange(start as int, t@.len() as int);
                assert(full[i - start] == t@[i as int]);
                assert(!spec_all_digits(full, base as int));
            }
            return None;
        }
        let ghost pre = t@.subrange(start as int, i as int);
        let ghost now = t@.subrange(start as int, i as int + 1);
        proof {
            assert(now.drop_last() =~= pre);
            assert(now.last() == t@[i as int]);
        }
        if too_big {
            proof {
                lemma_digits_val_grows(now, base as int);
            }
        } else {
            let next = acc * base + (d as u32);
            if next > 0xFFFF {
                too_big = true;
            } else {
                acc = next;
            }
        }
        i += 1;
    }
    proof {
        assert(t@.subrange(start as int, t@.len() as int) =~= t@.subrange(
            start as int,
            i as int,
        ));
    }
    if too_big {
        None
    } else {
        Some(acc as u16)
    }
}

/// Evaluates an immediate token.
fn parse_num(t: &Vec<char>) -> (r: Option<u16>)
    ensures
        r == spec_parse_num(t@),
{
    if t.len() > 2 && t[0] == '0' && t[1] == 'x' {
        let r = digits_val(t, 2, 16);
        if r.is_some() {
            return r;
        }
        proof {
            assert(spec_hex_val('x') >= 10);
            assert(t@[1] == 'x');
            assert(!spec_all_digits(t@, 10));
        }
        None
    } else {
        if t.len() == 0 {
            return None;
        }
        let r = digits_val(t, 0, 10);
        proof {
            assert(t@.subrange(0, t@.len() as int) =~= t@);
        }
        r
    }
}

/// The numeric value of a hexadecimal or decimal immediate token, or
/// `None` when the token is no such numeral or does not fit in 16 bits.
pub fn get_hex_str(text: &str) -> (r: Option<u16>)
    ensures
        r == spec_parse_num(text@),
{
    let chars = to_chars(text);
    parse_num(&chars)
}

/// Whether the token denotes a general-purpose register: `V` followed by
/// one hexadecimal digit.
pub open spec fn spec_is_reg(t: Seq<char>) -> bool {
    t.len() == 2 && t[0] == 'V' && spec_is_hex_digit(t[1])
}

/// The register index denoted by a register token.
pub open spec fn spec_reg_val(t: Seq<char>) -> u8 {
    spec_hex_val(t[1])
}

/// Recognizes a register token.
fn is_reg(t: &Vec<char>) -> (r: bool)
    ensures
        r == spec_is_reg(t@),
{
    t.len() == 2 && t[0] == 'V' && hex_val(t[1]) < 16
}

/// The register index of a register token.
fn reg_val(t: &Vec<char>) -> (r: u8)
    requires
        spec_is_reg(t@),
    ensures
        r == spec_reg_val(t@),
        r < 16,
{
    hex_val(t[1])
}

/// Resolution of an address operand against a label table: a
/// `0x`-prefixed numeral must be a 12-bit value, any other token is
/// looked up as a label whose recorded address must also be 12-bit.
pub open spec fn spec_get_address(t: Seq<char>, labels: Map<Seq<char>, u16>) -> Result<
    u16,
    AddressError,
> {
    if t.len() >= 2 && t[0] == '0' && t[1] == 'x' {
        match spec_parse_num(t) {
            Some(v) => if v <= 0xFFF {
                Ok(v)
            } else {
                Err(AddressError::Invalid)
            },
            None => Err(AddressError::Invalid),
        }
    } else if labels.contains_key(t) {
        if labels[t] <= 0xFFF {
            Ok(labels[t])
        } else {
            Err(AddressError::Invalid)
        }
    } else {
        Err(AddressError::UnknownLabel)
    }
}

/// Resolves an address operand token.
fn get_address_chars(t: &Vec<char>, labels: &LabelTable) -> (r: Result<u16, AddressError>)
    requires
        labels.wf(),
    ensures
        r == spec_get_address(t@, labels@),
{
    if t.len() >= 2 && t[0] == '0' && t[1] == 'x' {
        match parse_num(t) {
            Some(v) => {
                if v <= 0xFFF {
                    Ok(v)
                } else {
                    Err(AddressError::Invalid)
                }
            },
            None => Err(AddressError::Invalid),
        }
    } else {
        match labels.lookup(t) {
            Some(a) => {
                if a <= 0xFFF {
                    Ok(a)
                } else {
                    Err(AddressError::Invalid)
                }
            },
            None => Err(AddressError::UnknownLabel),
        }
    }
}

/// The address of an operand token: a `0x`-prefixed 12-bit numeral, or
/// the recorded address of a label.
pub fn get_address(text: &str, labels: &LabelTable) -> (r: Result<u16, AddressError>)
    requires
        labels.wf(),
    ensures
        r == spec_get_address(text@, labels@),
{
    let chars = to_chars(text);
    get_address_chars(&chars, labels)
}

/// An 8-bit immediate operand: a numeral no larger than 0xFF.
pub open spec fn spec_byte_of(t: Seq<char>) -> Option<u8> {
    match spec_parse_num(t) {
        Some(v) => if v <= 0xFF {
            Some(v as u8)
        } else {
            None
        },
        None => None,
    }
}

/// A 4-bit immediate operand: a numeral no larger than 0xF.
pub open spec fn spec_nib_of(t: Seq<char>) -> Option<u8> {
    match spec_parse_num(t) {
        Some(v) => if v <= 0xF {
            Some(v as u8)
        } else {
            None
        },
        None => None,
    }
}

/// Evaluates an 8-bit immediate operand.
fn byte_of(t: &Vec<char>) -> (r: Option<u8>)
    ensures
        r == spec_byte_of(t@),
{
    match parse_num(t) {
        Some(v) => if v <= 0xFF {
            Some(v as u8)
        } else {
            None
        },
        None => None,
    }
}

/// Evaluates a 4-bit immediate operand.
fn nib_of(t: &Vec<char>) -> (r: Option<u8>)
    ensures
        r == spec_nib_of(t@),
{
    match parse_num(t) {
        Some(v) => if v <= 0xF {
            Some(v as u8)
        } else {
            None
        },
        None => None,
    }
}

/// Whether a token holds exactly the characters of a known string.
fn tok_eq_str(t: &Vec<char>, s: &str) -> (r: bool)
    ensures
        r == (t@ == s@),
{
    let n = s.unicode_len();
    if t.len() != n {
        proof {
            assert(t@ != s@);
        }
        return false;
    }
    let mut i: usize = 0;
    while i < n
        invariant
            n == s@.len(),
            t@.len() == n,
            i <= n,
            forall|j: int| 0 <= j < i ==> t@[j] == s@[j],
        decreases n - i,
    {
        if t[i] != s.get_char(i) {
            proof {
                assert(t@[i as int] != s@[i as int]);
            }
            return false;
        }
        i += 1;
    }
    proof {
        assert(t@ =~= s@);
    }
    true
}

/// The opcode encoded by the tokens of one instruction line, against the
/// opcode table: the mnemonic picks the instruction family and the
/// operand shapes pick the encoding within it. `Incomplete` reports a
/// label reference not yet in the table; `Malformed` any mnemonic or
/// operand mismatch.
pub open spec fn spec_parse_tokens(ts: Seq<Seq<char>>, labels: Map<Seq<char>, u16>) -> Result<
    u16,
    OpcodeError,
> {
    if ts.len() == 0 {
        Err(OpcodeError::NoOpcode)
    } else {
        let m = ts[0];
        if m == "CLS"@ {
            if ts.len() == 1 {
                Ok(spec_encode(Instr::Cls) as u16)
            } else {
                Err(OpcodeError::Malformed)
            }
        } else if m == "RET"@ {
            if ts.len() == 1 {
                Ok(spec_encode(Instr::Ret) as u16)
            } else {
                Err(OpcodeError::Malformed)
            }
        } else if m == "SYS"@ {
            if ts.len() == 2 {
                match spec_get_address(ts[1], labels) {
                    Ok(a) => Ok(spec_encode(Instr::Sys { nnn: a }) as u16),
                    Err(AddressError::UnknownLabel) => Err(OpcodeError::Incomplete),
                    Err(AddressError::Invalid) => Err(OpcodeError::Malformed),
                }
            } else {
                Err(OpcodeError::Malformed)
            }
        } else if m == "JP"@ {
            if ts.len() == 2 {
                match spec_get_address(ts[1], labels) {
                    Ok(a) => Ok(spec_encode(Instr::Jp { nnn: a }) as u16),
                    Err(AddressError::UnknownLabel) => Err(OpcodeError::Incomplete),
                    Err(AddressError::Invalid) => Err(OpcodeError::Malformed),
                }
            } else if ts.len() == 3 && ts[1] == "V0"@ {
                match spec_get_address(ts[2], labels) {
                    Ok(a) => Ok(spec_encode(Instr::JpV0 { nnn: a }) as u16),
                    Err(AddressError::UnknownLabel) => Err(OpcodeError::Incomplete),
                    Err(AddressError::Invalid) => Err(OpcodeError::Malformed),
                }
            } else {
                Err(OpcodeError::Malformed)
            }
        } else if m == "CALL"@ {
            if ts.len() == 2 {
                match spec_get_address(ts[1], labels) {
                    Ok(a) => Ok(spec_encode(Instr::Call { nnn: a }) as u16),
                    Err(AddressError::UnknownLabel) => Err(OpcodeError::Incomplete),
                    Err(AddressError::Invalid) => Err(OpcodeError::Malformed),
                }
            } else {
                Err(OpcodeError::Malformed)
            }
        } else if m == "SE"@ {
            if ts.len() == 3 && spec_is_reg(ts[1]) && spec_is_reg(ts[2]) {
                Ok(spec_encode(Instr::SeReg { x: spec_reg_val(ts[1]), y: spec_reg_val(ts[2]) })
                    as u16)
            } else if ts.len() == 3 && spec_is_reg(ts[1]) {
                match spec_byte_of(ts[2]) {
                    Some(kk) => Ok(spec_encode(Instr::SeByte { x: spec_reg_val(ts[1]), kk })
                        as u16),
                    None => Err(OpcodeError::Malformed),
                }
            } else {
                Err(OpcodeError::Malformed)
            }
        } else if m == "SNE"@ {
            if ts.len() == 3 && spec_is_reg(ts[1]) && spec_is_reg(ts[2]) {
                Ok(spec_encode(Instr::SneReg { x: spec_reg_val(ts[1]), y: spec_reg_val(ts[2]) })
                    as u16)
            } else if ts.len() == 3 && spec_is_reg(ts[1]) {
                match spec_byte_of(ts[2]) {
                    Some(kk) => Ok(spec_encode(Instr::SneByte { x: spec_reg_val(ts[1]), kk })
                        as u16),
                    None => Err(OpcodeError::Malformed),
                }
            } else {
                Err(OpcodeError::Malformed)
            }
        } else if m == "LD"@ {
            if ts.len() != 3 {
                Err(OpcodeError::Malformed)
            } else {
                let a = ts[1];
                let b = ts[2];
                if spec_is_reg(a) && spec_is_reg(b) {
                    Ok(spec_encode(Instr::LdReg { x: spec_reg_val(a), y: spec_reg_val(b) })
                        as u16)
                } else if a == "I"@ && spec_is_reg(b) {
                    Ok(spec_encode(Instr::Store { x: spec_reg_val(b) }) as u16)
                } else if a == "I"@ {
                    match spec_get_address(b, labels) {
                        Ok(addr) => Ok(spec_encode(Instr::LdI { nnn: addr }) as u16),
                        Err(AddressError::UnknownLabel) => Err(OpcodeError::Incomplete),
                        Err(AddressError::Invalid) => Err(OpcodeError::Malformed),
                    }
                } else if spec_is_reg(a) && b == "DT"@ {
                    Ok(spec_encode(Instr::LdFromDt { x: spec_reg_val(a) }) as u16)
                } else if spec_is_reg(a) && b == "K"@ {
                    Ok(spec_encode(Instr::LdKey { x: spec_reg_val(a) }) as u16)
                } else if a == "DT"@ && spec_is_reg(b) {
                    Ok(spec_encode(Instr::LdToDt { x: spec_reg_val(b) }) as u16)
                } else if a == "ST"@ && spec_is_reg(b) {
                    Ok(spec_encode(Instr::LdToSt { x: spec_reg_val(b) }) as u16)
                } else if a == "F"@ && spec_is_reg(b) {
                    Ok(spec_encode(Instr::LdFont { x: spec_reg_val(b) }) as u16)
                } else if a == "B"@ && spec_is_reg(b) {
                    Ok(spec_encode(Instr::LdBcd { x: spec_reg_val(b) }) as u16)
                } else if spec_is_reg(a) && b == "I"@ {
                    Ok(spec_encode(Instr::Load { x: spec_reg_val(a) }) as u16)
                } else if spec_is_reg(a) {
                    match spec_byte_of(b) {
                        Some(kk) => Ok(spec_encode(Instr::LdByte { x: spec_reg_val(a), kk })
                            as u16),
                        None => Err(OpcodeError::Malformed),
                    }
                } else {
                    Err(OpcodeError::Malformed)
                }
            }
        } else if m == "ADD"@ {
            if ts.len() != 3 {
                Err(OpcodeError::Malformed)
            } else if spec_is_reg(ts[1]) && spec_is_reg(ts[2]) {
                Ok(spec_encode(Instr::AddReg { x: spec_reg_val(ts[1]), y: spec_reg_val(ts[2]) })
                    as u16)
            } else if spec_is_reg(ts[1]) {
                match spec_byte_of(ts[2]) {
                    Some(kk) => Ok(spec_encode(Instr::AddByte { x: spec_reg_val(ts[1]), kk })
                        as u16),
                    None => Err(OpcodeError::Malformed),
                }
            } else if ts[1] == "I"@ && spec_is_reg(ts[2]) {
                Ok(spec_encode(Instr::AddI { x: spec_reg_val(ts[2]) }) as u16)
            } else {
                Err(OpcodeError::Malformed)
            }
        } else if m == "OR"@ {
            if ts.len() == 3 && spec_is_reg(ts[1]) && spec_is_reg(ts[2]) {
                Ok(spec_encode(Instr::Or { x: spec_reg_val(ts[1]), y: spec_reg_val(ts[2]) })
                    as u16)
            } else {
                Err(OpcodeError::Malformed)
            }
        } else if m == "AND"@ {
            if ts.len() == 3 && spec_is_reg(ts[1]) && spec_is_reg(ts[2]) {
                Ok(spec_encode(Instr::And { x: spec_reg_val(ts[1]), y: spec_reg_val(ts[2]) })
                    as u16)
            } else {
                Err(OpcodeError::Malformed)
            }
        } else if m == "XOR"@ {
            if ts.len() == 3 && spec_is_reg(ts[1]) && spec_is_reg(ts[2]) {
                Ok(spec_encode(Instr::Xor { x: spec_reg_val(ts[1]), y: spec_reg_val(ts[2]) })
                    as u16)
            } else {
                Err(OpcodeError::Malformed)
            }
        } else if m == "SUB"@ {
            if ts.len() == 3 && spec_is_reg(ts[1]) && spec_is_reg(ts[2]) {
                Ok(spec_encode(Instr::Sub { x: spec_reg_val(ts[1]), y: spec_reg_val(ts[2]) })
                    as u16)
            } else {
                Err(OpcodeError::Malformed)
            }
        } else if m == "SUBN"@ {
            if ts.len() == 3 && spec_is_reg(ts[1]) && spec_is_reg(ts[2]) {
                Ok(spec_encode(Instr::Subn { x: spec_reg_val(ts[1]), y: spec_reg_val(ts[2]) })
                    as u16)
            } else {
                Err(OpcodeError::Malformed)
            }
        } else if m == "SHR"@ {
            if ts.len() == 2 && spec_is_reg(ts[1]) {
                Ok(spec_encode(Instr::Shr { x: spec_reg_val(ts[1]), y: 0 }) as u16)
            } else if ts.len() == 3 && spec_is_reg(ts[1]) && spec_is_reg(ts[2]) {
                Ok(spec_encode(Instr::Shr { x: spec_reg_val(ts[1]), y: spec_reg_val(ts[2]) })
                    as u16)
            } else {
                Err(OpcodeError::Malformed)
            }
        } else if m == "SHL"@ {
            if ts.len() == 2 && spec_is_reg(ts[1]) {
                Ok(spec_encode(Instr::Shl { x: spec_reg_val(ts[1]), y: 0 }) as u16)
            } else if ts.len() == 3 && spec_is_reg(ts[1]) && spec_is_reg(ts[2]) {
                Ok(spec_encode(Instr::Shl { x: spec_reg_val(ts[1]), y: spec_reg_val(ts[2]) })
                    as u16)
            } else {
                Err(OpcodeError::Malformed)
            }
        } else if m == "RND"@ {
            if ts.len() == 3 && spec_is_reg(ts[1]) {
                match spec_byte_of(ts[2]) {
                    Some(kk) => Ok(spec_encode(Instr::Rnd { x: spec_reg_val(ts[1]), kk }) as u16),
                    None => Err(OpcodeError::Malformed),
                }
            } else {
                Err(OpcodeError::Malformed)
            }
        } else if m == "DRW"@ {
            if ts.len() == 4 && spec_is_reg(ts[1]) && spec_is_reg(ts[2]) {
                match spec_nib_of(ts[3]) {
                    Some(n) => Ok(spec_encode(
                        Instr::Drw { x: spec_reg_val(ts[1]), y: spec_reg_val(ts[2]), n },
                    ) as u16),
                    None => Err(OpcodeError::Malformed),
                }
            } else {
                Err(OpcodeError::Malformed)
            }
        } else if m == "SKP"@ {
            if ts.len() == 2 && spec_is_reg(ts[1]) {
                Ok(spec_encode(Instr::Skp { x: spec_reg_val(ts[1]) }) as u16)
            } else {
                Err(OpcodeError::Malformed)
            }
        } else if m == "SKNP"@ {
            if ts.len() == 2 && spec_is_reg(ts[1]) {
                Ok(spec_encode(Instr::Sknp { x: spec_reg_val(ts[1]) }) as u16)
            } else {
                Err(OpcodeError::Malformed)
            }
        } else {
            Err(OpcodeError::Malformed)
        }
    }
}

/// Resolves an address operand and encodes it into the given instruction
/// shape.
fn addr_op(t: &Vec<char>, labels: &LabelTable) -> (r: Result<u16, OpcodeError>)
    requires
        labels.wf(),
    ensures
        r == (match spec_get_address(t@, labels@) {
            Ok(a) => Ok::<u16, OpcodeError>(a),
            Err(AddressError::UnknownLabel) => Err(OpcodeError::Incomplete),
            Err(AddressError::Invalid) => Err(OpcodeError::Malformed),
        }),
{
    match get_address_chars(t, labels) {
        Ok(a) => Ok(a),
        Err(AddressError::UnknownLabel) => Err(OpcodeError::Incomplete),
        Err(AddressError::Invalid) => Err(OpcodeError::Malformed),
    }
}

/// Encodes one instruction line from its tokens, consulting the label
/// table for address operands.
fn parse_tokens_chars(ts: &Vec<Vec<char>>, labels: &LabelTable) -> (r: Result<u16, OpcodeError>)
    requires
        labels.wf(),
    ensures
        r == spec_parse_tokens(views_of(ts@), labels@),
{
    let ghost tsv = views_of(ts@);
    if ts.len() == 0 {
        return Err(OpcodeError::NoOpcode);
    }
    let m = &ts[0];
    if tok_eq_str(m, "CLS") {
        if ts.len() == 1 {
            Ok(encode_instr(&Instr::Cls))
        } else {
            Err(OpcodeError::Malformed)
        }
    } else if tok_eq_str(m, "RET") {
        if ts.len() == 1 {
            Ok(encode_instr(&Instr::Ret))
        } else {
            Err(OpcodeError::Malformed)
        }
    } else if tok_eq_str(m, "SYS") {
        if ts.len() == 2 {
            match addr_op(&ts[1], labels) {
                Ok(a) => {
                    proof {
                        assert(spec_encode(Instr::Sys { nnn: a }) as u16 == a);
                    }
                    Ok(a)
                },
                Err(e) => Err(e),
            }
        } else {
            Err(OpcodeError::Malformed)
        }
    } else if tok_eq_str(m, "JP") {
        if ts.len() == 2 {
            match addr_op(&ts[1], labels) {
                Ok(a) => Ok(encode_instr(&Instr::Jp { nnn: a })),
                Err(e) => Err(e),
            }
        } else if ts.len() == 3 && tok_eq_str(&ts[1], "V0") {
            match addr_op(&ts[2], labels) {
                Ok(a) => Ok(encode_instr(&Instr::JpV0 { nnn: a })),
                Err(e) => Err(e),
            }
        } else {
            Err(OpcodeError::Malformed)
        }
    } else if tok_eq_str(m, "CALL") {
        if ts.len() == 2 {
            match addr_op(&ts[1], labels) {
                Ok(a) => Ok(encode_instr(&Instr::Call { nnn: a })),
                Err(e) => Err(e),
            }
        } else {
            Err(OpcodeError::Malformed)
        }
    } else if tok_eq_str(m, "SE") {
        if ts.len() == 3 && is_reg(&ts[1]) && is_reg(&ts[2]) {
            Ok(encode_instr(&Instr::SeReg { x: reg_val(&ts[1]), y: reg_val(&ts[2]) }))
        } else if ts.len() == 3 && is_reg(&ts[1]) {
            match byte_of(&ts[2]) {
                Some(kk) => Ok(encode_instr(&Instr::SeByte { x: reg_val(&ts[1]), kk })),
                None => Err(OpcodeError::Malformed),
            }
        } else {
            Err(OpcodeError::Malformed)
        }
    } else if tok_eq_str(m, "SNE") {
        if ts.len() == 3 && is_reg(&ts[1]) && is_reg(&ts[2]) {
            Ok(encode_instr(&Instr::SneReg { x: reg_val(&ts[1]), y: reg_val(&ts[2]) }))
        } else if ts.len() == 3 && is_reg(&ts[1]) {
            match byte_of(&ts[2]) {
                Some(kk) => Ok(encode_instr(&Instr::SneByte { x: reg_val(&ts[1]), kk })),
                None => Err(OpcodeError::Malformed),
            }
        } else {
            Err(OpcodeError::Malformed)
        }
    } else if tok_eq_str(m, "LD") {
        if ts.len() != 3 {
            Err(OpcodeError::Malformed)
        } else if is_reg(&ts[1]) && is_reg(&ts[2]) {
            Ok(encode_instr(&Instr::LdReg { x: reg_val(&ts[1]), y: reg_val(&ts[2]) }))
        } else if tok_eq_str(&ts[1], "I") && is_reg(&ts[2]) {
            Ok(encode_instr(&Instr::Store { x: reg_val(&ts[2]) }))
        } else if tok_eq_str(&ts[1], "I") {
            match addr_op(&ts[2], labels) {
                Ok(a) => Ok(encode_instr(&Instr::LdI { nnn: a })),
                Err(e) => Err(e),
            }
        } else if is_reg(&ts[1]) && tok_eq_str(&ts[2], "DT") {
            Ok(encode_instr(&Instr::LdFromDt { x: reg_val(&ts[1]) }))
        } else if is_reg(&ts[1]) && tok_eq_str(&ts[2], "K") {
            Ok(encode_instr(&Instr::LdKey { x: reg_val(&ts[1]) }))
        } else if tok_eq_str(&ts[1], "DT") && is_reg(&ts[2]) {
            Ok(encode_instr(&Instr::LdToDt { x: reg_val(&ts[2]) }))
        } else if tok_eq_str(&ts[1], "ST") && is_reg(&ts[2]) {
            Ok(encode_instr(&Instr::LdToSt { x: reg_val(&ts[2]) }))
        } else if tok_eq_str(&ts[1], "F") && is_reg(&ts[2]) {
            Ok(encode_instr(&Instr::LdFont { x: reg_val(&ts[2]) }))
        } else if tok_eq_str(&ts[1], "B") && is_reg(&ts[2]) {
            Ok(encode_instr(&Instr::LdBcd { x: reg_val(&ts[2]) }))
        } else if is_reg(&ts[1]) && tok_eq_str(&ts[2], "I") {
            Ok(encode_instr(&Instr::Load { x: reg_val(&ts[1]) }))
        } else if is_reg(&ts[1]) {
            match byte_of(&ts[2]) {
                Some(kk) => Ok(encode_instr(&Instr::LdByte { x: reg_val(&ts[1]), kk })),
                None => Err(OpcodeError::Malformed),
            }
        } else {
            Err(OpcodeError::Malformed)
        }
    } else if tok_eq_str(m, "ADD") {
        if ts.len() != 3 {
            Err(OpcodeError::Malformed)
        } else if is_reg(&ts[1]) && is_reg(&ts[2]) {
            Ok(encode_instr(&Instr::AddReg { x: reg_val(&ts[1]), y: reg_val(&ts[2]) }))
        } else if is_reg(&ts[1]) {
            match byte_of(&ts[2]) {
                Some(kk) => Ok(encode_instr(&Instr::AddByte { x: reg_val(&ts[1]), kk })),
                None => Err(OpcodeError::Malformed),
            }
        } else if tok_eq_str(&ts[1], "I") && is_reg(&ts[2]) {
            Ok(encode_instr(&Instr::AddI { x: reg_val(&ts[2]) }))
        } else {
            Err(OpcodeError::Malformed)
        }
    } else if tok_eq_str(m, "OR") {
        if ts.len() == 3 && is_reg(&ts[1]) && is_reg(&ts[2]) {
            Ok(encode_instr(&Instr::Or { x: reg_val(&ts[1]), y: reg_val(&ts[2]) }))
        } else {
            Err(OpcodeError::Malformed)
        }
    } else if tok_eq_str(m, "AND") {
        if ts.len() == 3 && is_reg(&ts[1]) && is_reg(&ts[2]) {
            Ok(encode_instr(&Instr::And { x: reg_val(&ts[1]), y: reg_val(&ts[2]) }))
        } else {
            Err(OpcodeError::Malformed)
        }
    } else if tok_eq_str(m, "XOR") {
        if ts.len() == 3 && is_reg(&ts[1]) && is_reg(&ts[2]) {
            Ok(encode_instr(&Instr::Xor { x: reg_val(&ts[1]), y: reg_val(&ts[2]) }))
        } else {
            Err(OpcodeError::Malformed)
        }
    } else if tok_eq_str(m, "SUB") {
        if ts.len() == 3 && is_reg(&ts[1]) && is_reg(&ts[2]) {
            Ok(encode_instr(&Instr::Sub { x: reg_val(&ts[1]), y: reg_val(&ts[2]) }))
        } else {
            Err(OpcodeError::Malformed)
        }
    } else if tok_eq_str(m, "SUBN") {
        if ts.len() == 3 && is_reg(&ts[1]) && is_reg(&ts[2]) {
            Ok(encode_instr(&Instr::Subn { x: reg_val(&ts[1]), y: reg_val(&ts[2]) }))
        } else {
            Err(OpcodeError::Malformed)
        }
    } else if tok_eq_str(m, "SHR") {
        if ts.len() == 2 && is_reg(&ts[1]) {
            Ok(encode_instr(&Instr::Shr { x: reg_val(&ts[1]), y: 0 }))
        } else if ts.len() == 3 && is_reg(&ts[1]) && is_reg(&ts[2]) {
            Ok(encode_instr(&Instr::Shr { x: reg_val(&ts[1]), y: reg_val(&ts[2]) }))
        } else {
            Err(OpcodeError::Malformed)
        }
    } else if tok_eq_str(m, "SHL") {
        if ts.len() == 2 && is_reg(&ts[1]) {
            Ok(encode_instr(&Instr::Shl { x: reg_val(&ts[1]), y: 0 }))
        } else if ts.len() == 3 && is_reg(&ts[1]) && is_reg(&ts[2]) {
            Ok(encode_instr(&Instr::Shl { x: reg_val(&ts[1]), y: reg_val(&ts[2]) }))
        } else {
            Err(OpcodeError::Malformed)
        }
    } else if tok_eq_str(m, "RND") {
        if ts.len() == 3 && is_reg(&ts[1]) {
            match byte_of(&ts[2]) {
                Some(kk) => Ok(encode_instr(&Instr::Rnd { x: reg_val(&ts[1]), kk })),
                None => Err(OpcodeError::Malformed),
            }
        } else {
            Err(OpcodeError::Malformed)
        }
    } else if tok_eq_str(m, "DRW") {
        if ts.len() == 4 && is_reg(&ts[1]) && is_reg(&ts[2]) {
            match nib_of(&ts[3]) {
                Some(n) => Ok(
                    encode_instr(&Instr::Drw { x: reg_val(&ts[1]), y: reg_val(&ts[2]), n }),
                ),
                None => Err(OpcodeError::Malformed),
            }
        } else {
            Err(OpcodeError::Malformed)
        }
    } else if tok_eq_str(m, "SKP") {
        if ts.len() == 2 && is_reg(&ts[1]) {
            Ok(encode_instr(&Instr::Skp { x: reg_val(&ts[1]) }))
        } else {
            Err(OpcodeError::Malformed)
        }
    } else if tok_eq_str(m, "SKNP") {
        if ts.len() == 2 && is_reg(&ts[1]) {
            Ok(encode_instr(&Instr::Sknp { x: reg_val(&ts[1]) }))
        } else {
            Err(OpcodeError::Malformed)
        }
    } else {
        Err(OpcodeError::Malformed)
    }
}

/// The label defined by a source line, if the line is a label definition:
/// a single token of at least two characters ending in `:`, naming the
/// characters before the colon.
pub open spec fn spec_line_label(line: Seq<char>) -> Option<Seq<char>> {
    let ts = spec_line_tokens(line);
    if ts.len() == 1 && ts[0].len() >= 2 && ts[0].last() == ':' {
        Some(ts[0].drop_last())
    } else {
        None
    }
}

/// The outcome of parsing one source line: the encoded opcode, or why
/// there is none. A blank, comment-only or label-definition line yields
/// `NoOpcode`; a lone token ending in `:` with other tokens beside it, or
/// an empty label name, is `Malformed`.
pub open spec fn spec_parse_line(line: Seq<char>, labels: Map<Seq<char>, u16>) -> Result<
    u16,
    OpcodeError,
> {
    let ts = spec_line_tokens(line);
    if ts.len() == 0 {
        Err(OpcodeError::NoOpcode)
    } else if ts[0].len() > 0 && ts[0].last() == ':' {
        if ts.len() == 1 && ts[0].len() >= 2 {
            Err(OpcodeError::NoOpcode)
        } else {
            Err(OpcodeError::Malformed)
        }
    } else {
        spec_parse_tokens(ts, labels)
    }
}

/// Parses one line of tokenized characters, recording any label
/// definition at address `memory_index`.
fn parse_chars(line: &Vec<char>, labels: &mut LabelTable, memory_index: u16) -> (r: Result<
    u16,
    OpcodeError,
>)
    requires
        old(labels).wf(),
    ensures
        final(labels).wf(),
        r == spec_parse_line(line@, old(labels)@),
        final(labels)@ == (match spec_line_label(line@) {
            Some(nm) => old(labels)@.insert(nm, memory_index),
            None => old(labels)@,
        }),
{
    let ts = tokenize_line(line);
    if ts.len() == 0 {
        return Err(OpcodeError::NoOpcode);
    }
    let t0_len = ts[0].len();
    if t0_len > 0 && ts[0][t0_len - 1] == ':' {
        if ts.len() == 1 && t0_len >= 2 {
            let mut name = ts[0].clone();
            proof {
                assert(name@ =~= ts@[0]@);
            }
            name.pop();
            proof {
                assert(name@ == spec_line_label(line@)->Some_0);
            }
            labels.insert(&name, memory_index);
            Err(OpcodeError::NoOpcode)
        } else {
            Err(OpcodeError::Malformed)
        }
    } else {
        parse_tokens_chars(&ts, labels)
    }
}

/// Parses one line of tokenized characters against a complete label
/// table, recording nothing: the second pass re-parses deferred lines
/// this way.
fn parse_chars_ro(line: &Vec<char>, labels: &LabelTable) -> (r: Result<u16, OpcodeError>)
    requires
        labels.wf(),
    ensures
        r == spec_parse_line(line@, labels@),
{
    let ts = tokenize_line(line);
    if ts.len() == 0 {
        return Err(OpcodeError::NoOpcode);
    }
    let t0_len = ts[0].len();
    if t0_len > 0 && ts[0][t0_len - 1] == ':' {
        if ts.len() == 1 && t0_len >= 2 {
            Err(OpcodeError::NoOpcode)
        } else {
            Err(OpcodeError::Malformed)
        }
    } else {
        parse_tokens_chars(&ts, labels)
    }
}

/// Parses one source line against the label table: returns the encoded
/// opcode, or reports why the line yields none. A label definition is
/// recorded in the table at address `memory_index`.
pub fn parse_asm_line(line: &str, labels: &mut LabelTable, memory_index: u16) -> (r: Result<
    u16,
    OpcodeError,
>)
    requires
        old(labels).wf(),
    ensures
        final(labels).wf(),
        r == spec_parse_line(line@, old(labels)@),
        final(labels)@ == (match spec_line_label(line@) {
            Some(nm) => old(labels)@.insert(nm, memory_index),
            None => old(labels)@,
        }),
{
    let chars = to_chars(line);
    parse_chars(&chars, labels, memory_index)
}

/// A line with one trailing carriage return removed, as the line splitter
/// consumes it.
pub open spec fn spec_strip_cr(t: Seq<char>) -> Seq<char> {
    if t.len() > 0 && t.last() == '\r' {
        t.drop_last()
    } else {
        t
    }
}

/// The source split into lines, scanning from position `i` with the
/// partial line `cur` in hand: lines are separated by `\n`, and a
/// carriage return before the separator is consumed.
pub open spec fn spec_split_lines_at(s: Seq<char>, i: nat, cur: Seq<char>) -> Seq<Seq<char>>
    decreases s.len() - i,
{
    if i >= s.len() {
        if cur.len() > 0 {
            seq![spec_strip_cr(cur)]
        } else {
            seq![]
        }
    } else if s[i as int] == '\n' {
        seq![spec_strip_cr(cur)] + spec_split_lines_at(s, i + 1, seq![])
    } else {
        spec_split_lines_at(s, i + 1, cur.push(s[i as int]))
    }
}

/// The lines of a source text.
pub open spec fn spec_lines(s: Seq<char>) -> Seq<Seq<char>> {
    spec_split_lines_at(s, 0, seq![])
}

/// The first pass over the lines from index `k` on, carrying the label
/// table, the line records built so far and the next free memory
/// position. Every line is parsed once: a resolved line is recorded with
/// its opcode, a line waiting on a label is recorded unresolved, label
/// definitions are entered into the table at the current position, and a
/// malformed line aborts assembly at once. Each recorded line occupies a
/// fixed two-byte slot; a slot past the end of the 4096-byte image is an
/// error.
pub open spec fn spec_pass1(
    lines: Seq<Seq<char>>,
    k: nat,
    labels: Map<Seq<char>, u16>,
    recs: Seq<(Seq<char>, Option<u16>, u16)>,
    pos: u16,
) -> Result<(Map<Seq<char>, u16>, Seq<(Seq<char>, Option<u16>, u16)>, u16), SpecAsmError>
    decreases lines.len() - k,
{
    if k >= lines.len() {
        Ok((labels, recs, pos))
    } else {
        let line = lines[k as int];
        let labels2 = match spec_line_label(line) {
            Some(nm) => labels.insert(nm, pos),
            None => labels,
        };
        match spec_parse_line(line, labels) {
            Ok(op) => if pos >= 0x1000 {
                Err(SpecAsmError::TooLarge)
            } else {
                spec_pass1(lines, k + 1, labels2, recs.push((line, Some(op), pos)), (pos + 2) as u16)
            },
            Err(OpcodeError::NoOpcode) => spec_pass1(lines, k + 1, labels2, recs, pos),
            Err(OpcodeError::Incomplete) => if pos >= 0x1000 {
                Err(SpecAsmError::TooLarge)
            } else {
                spec_pass1(lines, k + 1, labels2, recs.push((line, None, pos)), (pos + 2) as u16)
            },
            Err(OpcodeError::Malformed) => Err(SpecAsmError::Malformed { line }),
        }
    }
}

/// The second pass over the line records from index `k` on, with the
/// complete label table: every still-unresolved line is parsed again at
/// its originally assigned position, and each record contributes its
/// opcode, big-endian, to the output. A line that still fails to resolve
/// names an undefined label.
pub open spec fn spec_pass2(
    recs: Seq<(Seq<char>, Option<u16>, u16)>,
    labels: Map<Seq<char>, u16>,
    k: nat,
    out: Seq<u8>,
) -> Result<Seq<u8>, SpecAsmError>
    decreases recs.len() - k,
{
    if k >= recs.len() {
        Ok(out)
    } else {
        let rec = recs[k as int];
        match rec.1 {
            Some(op) => spec_pass2(
                recs,
                labels,
                k + 1,
                out.push((op / 256) as u8).push((op % 256) as u8),
            ),
            None => match spec_parse_line(rec.0, labels) {
                Ok(op) => spec_pass2(
                    recs,
                    labels,
                    k + 1,
                    out.push((op / 256) as u8).push((op % 256) as u8),
                ),
                Err(OpcodeError::Malformed) => Err(SpecAsmError::Malformed { line: rec.0 }),
                Err(_) => Err(SpecAsmError::Undefined { line: rec.0 }),
            },
        }
    }
}

/// The two-pass assembly of a source text: the flat byte sequence of the
/// 16-bit big-endian opcodes in source order, with every label reference
/// resolved, or the first fatal error.
pub open spec fn spec_assemble(src: Seq<char>) -> Result<Seq<u8>, SpecAsmError> {
    match spec_pass1(spec_lines(src), 0, Map::empty(), seq![], 0x200) {
        Err(e) => Err(e),
        Ok(p) => spec_pass2(p.1, p.0, 0, seq![]),
    }
}


/// Whether `lbl` can serve as a label name in the line grammar: it is
/// nonempty, free of the separator characters that tokenization consumes,
/// and not shaped like a hexadecimal immediate.
pub open spec fn spec_is_label_name(lbl: Seq<char>) -> bool {
    &&& lbl.len() > 0
    &&& (forall|i: int|
        0 <= i < lbl.len() ==> lbl[i] != ' ' && lbl[i] != '\n' && lbl[i] != '\r' && lbl[i] != ';'
            && lbl[i] != ',' && lbl[i] != ':')
    &&& !(lbl.len() >= 2 && lbl[0] == '0' && lbl[1] == 'x')
}

/// Splitting a region that holds no newline yields at most the one line
/// accumulated so far.
proof fn lemma_split_tail(s: Seq<char>, i: nat, cur: Seq<char>)
    requires
        i <= s.len(),
        forall|k: int| i <= k < s.len() ==> s[k] != '\n',
    ensures
        spec_split_lines_at(s, i, cur) == (if (cur + s.subrange(i as int, s.len() as int)).len()
            > 0 {
            seq![spec_strip_cr(cur + s.subrange(i as int, s.len() as int))]
        } else {
            Seq::<Seq<char>>::empty()
        }),
    decreases s.len() - i,
{
    if i == s.len() {
        assert(cur + s.subrange(i as int, s.len() as int) =~= cur);
    } else {
        lemma_split_tail(s, i + 1, cur.push(s[i as int]));
        assert(cur.push(s[i as int]) + s.subrange(i as int + 1, s.len() as int) =~= cur
            + s.subrange(i as int, s.len() as int));
    }
}

/// Splitting up to the first newline emits the line accumulated so far
/// and continues past the separator.
proof fn lemma_split_to_newline(s: Seq<char>, i: nat, p: nat, cur: Seq<char>)
    requires
        i <= p < s.len(),
        s[p as int] == '\n',
        forall|k: int| i <= k < p ==> s[k] != '\n',
    ensures
        spec_split_lines_at(s, i, cur) == seq![
            spec_strip_cr(cur + s.subrange(i as int, p as int)),
        ] + spec_split_lines_at(s, (p + 1) as nat, seq![]),
    decreases p - i,
{
    if i == p {
        assert(cur + s.subrange(i as int, p as int) =~= cur);
    } else {
        lemma_split_to_newline(s, i + 1, p, cur.push(s[i as int]));
        assert(cur.push(s[i as int]) + s.subrange(i as int + 1, p as int) =~= cur + s.subrange(
            i as int,
            p as int,
        ));
    }
}

/// Tokenizing a region that holds no separator yields at most the one
/// token accumulated so far.
proof fn lemma_raw_tokens_tail(s: Seq<char>, i: nat, cur: Seq<char>)
    requires
        i <= s.len(),
        forall|k: int| i <= k < s.len() ==> s[k] != ' ' && s[k] != ';',
    ensures
        spec_raw_tokens(s, i, cur) == (if (cur + s.subrange(i as int, s.len() as int)).len() > 0 {
            seq![cur + s.subrange(i as int, s.len() as int)]
        } else {
            Seq::<Seq<char>>::empty()
        }),
    decreases s.len() - i,
{
    if i == s.len() {
        assert(cur + s.subrange(i as int, s.len() as int) =~= cur);
    } else {
        lemma_raw_tokens_tail(s, i + 1, cur.push(s[i as int]));
        assert(cur.push(s[i as int]) + s.subrange(i as int + 1, s.len() as int) =~= cur
            + s.subrange(i as int, s.len() as int));
    }
}

/// The tokens of an instruction line `JP <lbl>`.
proof fn lemma_jp_line_tokens(lbl: Seq<char>)
    requires
        spec_is_label_name(lbl),
    ensures
        spec_line_tokens("JP "@ + lbl) =~= seq!["JP"@, lbl],
        spec_line_label("JP "@ + lbl) is None,
{
    reveal_strlit("JP ");
    reveal_strlit("JP");
    let l1 = "JP "@ + lbl;
    let ll = lbl.len() as int;
    assert(l1.len() == 3 + ll);
    assert(l1[0] == 'J' && l1[1] == 'P' && l1[2] == ' ');
    assert(forall|j: int| 0 <= j < ll ==> l1[3 + j] == lbl[j]);
    assert(Seq::<char>::empty().push('J') =~= seq!['J']);
    assert(seq!['J'].push('P') =~= seq!['J', 'P']);
    assert(seq!['J', 'P'] =~= "JP"@);
    assert(spec_raw_tokens(l1, 0, Seq::<char>::empty()) == spec_raw_tokens(
        l1,
        1,
        Seq::<char>::empty().push('J'),
    ));
    assert(spec_raw_tokens(l1, 1, seq!['J']) == spec_raw_tokens(l1, 2, seq!['J'].push('P')));
    assert(spec_raw_tokens(l1, 2, "JP"@) == seq!["JP"@] + spec_raw_tokens(
        l1,
        3,
        Seq::<char>::empty(),
    ));
    assert(forall|k: int| 3 <= k < l1.len() ==> l1[k] != ' ' && l1[k] != ';');
    lemma_raw_tokens_tail(l1, 3, seq![]);
    assert(Seq::<char>::empty() + l1.subrange(3, l1.len() as int) =~= lbl);
    assert(spec_raw_tokens(l1, 0, seq![]) =~= seq!["JP"@, lbl]);
    let raw = seq!["JP"@, lbl];
    assert(raw.drop_last() =~= seq!["JP"@]);
    assert(raw.last() == lbl);
    assert(lbl.last() != ',');
    assert(spec_strip_comma(lbl) == lbl);
    assert(seq!["JP"@].drop_last() =~= Seq::<Seq<char>>::empty());
    assert("JP"@.last() == 'P');
    assert(spec_strip_comma("JP"@) == "JP"@);
    assert(spec_clean(Seq::<Seq<char>>::empty()) =~= Seq::<Seq<char>>::empty());
    assert(Seq::<Seq<char>>::empty().push("JP"@) =~= seq!["JP"@]);
    assert(spec_clean(seq!["JP"@]) =~= seq!["JP"@]);
    assert(spec_clean(raw) =~= seq!["JP"@].push(lbl));
    assert(seq!["JP"@].push(lbl) =~= seq!["JP"@, lbl]);
    assert(spec_line_tokens(l1) =~= seq!["JP"@, lbl]);
}

/// The tokens of a label-definition line `<lbl>:`.
proof fn lemma_label_line_tokens(lbl: Seq<char>)
    requires
        spec_is_label_name(lbl),
    ensures
        spec_line_tokens(lbl + ":"@) =~= seq![lbl + ":"@],
        spec_line_label(lbl + ":"@) == Some(lbl),
        spec_parse_line(lbl + ":"@, Map::<Seq<char>, u16>::empty()) == Err::<u16, OpcodeError>(
            OpcodeError::NoOpcode,
        ),
{
    reveal_strlit(":");
    let l2 = lbl + ":"@;
    let ll = lbl.len() as int;
    assert(l2.len() == ll + 1);
    assert(forall|j: int| 0 <= j < ll ==> l2[j] == lbl[j]);
    assert(l2[ll] == ':');
    assert(forall|k: int| 0 <= k < l2.len() ==> l2[k] != ' ' && l2[k] != ';');
    lemma_raw_tokens_tail(l2, 0, seq![]);
    assert(Seq::<char>::empty() + l2.subrange(0, l2.len() as int) =~= l2);
    assert(spec_raw_tokens(l2, 0, seq![]) =~= seq![l2]);
    let raw = seq![l2];
    assert(raw.drop_last() =~= Seq::<Seq<char>>::empty());
    assert(l2.last() == ':');
    assert(spec_strip_comma(l2) == l2);
    assert(spec_clean(Seq::<Seq<char>>::empty()) =~= Seq::<Seq<char>>::empty());
    assert(Seq::<Seq<char>>::empty().push(l2) =~= seq![l2]);
    assert(spec_clean(raw) =~= seq![l2]);
    assert(spec_line_tokens(l2) =~= seq![l2]);
    assert(l2.drop_last() =~= lbl);
    assert(spec_line_label(l2) == Some(l2.drop_last()));
}

/// Parsing `JP <lbl>` consults the label table: unresolved while the
/// label is unknown, and encoding the jump to the recorded address once
/// it is known.
proof fn lemma_jp_line_parse(lbl: Seq<char>, labels: Map<Seq<char>, u16>)
    requires
        spec_is_label_name(lbl),
    ensures
        !labels.contains_key(lbl) ==> spec_parse_line("JP "@ + lbl, labels) == Err::<
            u16,
            OpcodeError,
        >(OpcodeError::Incomplete),
        labels.contains_key(lbl) && labels[lbl] <= 0xFFF ==> spec_parse_line(
            "JP "@ + lbl,
            labels,
        ) == Ok::<u16, OpcodeError>((0x1000 + labels[lbl]) as u16),
{
    reveal_strlit("JP");
    reveal_strlit("CLS");
    reveal_strlit("RET");
    reveal_strlit("SYS");
    lemma_jp_line_tokens(lbl);
    let l1 = "JP "@ + lbl;
    let ts = spec_line_tokens(l1);
    assert(ts =~= seq!["JP"@, lbl]);
    assert(ts[0] == "JP"@ && ts[1] == lbl && ts.len() == 2);
    assert("JP"@.len() == 2);
    assert("JP"@.last() == 'P');
    assert("JP"@ != "CLS"@);
    assert("JP"@ != "RET"@);
    assert("JP"@ != "SYS"@);
    if lbl.len() >= 2 {
        assert(!(lbl[0] == '0' && lbl[1] == 'x'));
    }
    assert(spec_parse_line(l1, labels) == spec_parse_tokens(ts, labels));
}

/// Forward label references resolve: a jump that references a label
/// defined only on the following line assembles to the label's assigned
/// position. The jump occupies the slot at 0x200, so the label defined
/// after it resolves to 0x202, and the output is the big-endian encoding
/// of a jump to 0x202.
pub proof fn lemma_forward_reference_resolves(lbl: Seq<char>)
    requires
        spec_is_label_name(lbl),
    ensures
        spec_assemble("JP "@ + lbl + "\n"@ + lbl + ":"@) == Ok::<Seq<u8>, SpecAsmError>(
            seq![0x12u8, 0x02u8],
        ),
{
    reveal_strlit("JP ");
    reveal_strlit("\n");
    reveal_strlit(":");
    let a = "JP "@;
    let ll = lbl.len() as int;
    let t1 = a + lbl;
    let t2 = t1 + "\n"@;
    let t3 = t2 + lbl;
    let s = t3 + ":"@;
    assert(a.len() == 3 && a[0] == 'J' && a[1] == 'P' && a[2] == ' ');
    assert("\n"@.len() == 1 && "\n"@[0] == '\n');
    assert(":"@.len() == 1 && ":"@[0] == ':');
    let p = 3 + ll;
    let n = s.len() as int;
    assert(n == 2 * ll + 5);
    assert(forall|k: int| 0 <= k < 3 + ll ==> s[k] == t1[k]);
    assert(s[p] == '\n');
    assert(forall|j: int| 0 <= j < ll ==> s[p + 1 + j] == lbl[j]);
    assert(s[n - 1] == ':');

    // The source splits into the jump line and the label line.
    assert(forall|k: int| 0 <= k < p ==> s[k] != '\n');
    lemma_split_to_newline(s, 0, p as nat, seq![]);
    assert(Seq::<char>::empty() + s.subrange(0, p) =~= s.subrange(0, p));
    assert(s.subrange(0, p) =~= t1);
    assert(t1.last() == lbl[ll - 1]);
    assert(spec_strip_cr(t1) == t1);
    assert(forall|k: int| p + 1 <= k < n ==> s[k] != '\n');
    lemma_split_tail(s, (p + 1) as nat, seq![]);
    assert(Seq::<char>::empty() + s.subrange(p + 1, n) =~= s.subrange(p + 1, n));
    let l2 = lbl + ":"@;
    assert(s.subrange(p + 1, n) =~= l2);
    assert(l2.last() == ':');
    assert(spec_strip_cr(l2) == l2);
    let lines = spec_lines(s);
    assert(lines =~= seq![t1, l2]);

    // Pass 1: the jump is deferred at 0x200; the label is recorded at
    // 0x202.
    lemma_jp_line_tokens(lbl);
    lemma_jp_line_parse(lbl, Map::<Seq<char>, u16>::empty());
    lemma_label_line_tokens(lbl);
    let rec = (t1, None::<u16>, 0x200u16);
    let recs1 = seq![rec];
    assert(Seq::<(Seq<char>, Option<u16>, u16)>::empty().push(rec) =~= recs1);
    let labels2 = Map::<Seq<char>, u16>::empty().insert(lbl, 0x202u16);
    assert(spec_pass1(lines, 0, Map::empty(), seq![], 0x200) == spec_pass1(
        lines,
        1,
        Map::empty(),
        recs1,
        0x202,
    ));
    assert(spec_pass1(lines, 1, Map::empty(), recs1, 0x202) == spec_pass1(
        lines,
        2,
        labels2,
        recs1,
        0x202,
    ));
    assert(spec_pass1(lines, 2, labels2, recs1, 0x202) == Ok::<_, SpecAsmError>(
        (labels2, recs1, 0x202u16),
    ));

    // Pass 2: the deferred jump now resolves to 0x202 and encodes as
    // 0x1202.
    lemma_jp_line_parse(lbl, labels2);
    assert(labels2.contains_key(lbl) && labels2[lbl] == 0x202);
    assert(spec_parse_line(t1, labels2) == Ok::<u16, OpcodeError>(0x1202u16));
    let out = Seq::<u8>::empty().push(0x12u8).push(0x02u8);
    assert(0x1202u16 / 256 == 0x12 && 0x1202u16 % 256 == 0x02);
    assert(spec_pass2(recs1, labels2, 0, seq![]) == spec_pass2(recs1, labels2, 1, out));
    assert(spec_pass2(recs1, labels2, 1, out) == Ok::<Seq<u8>, SpecAsmError>(out));
    assert(out =~= seq![0x12u8, 0x02u8]);
}

/// One source line retained across the two passes, as the first pass
/// records it: its text, its opcode if already resolved, its assigned
/// memory position, and where its text sits in the source.
struct AsmLine {
    chars: Vec<char>,
    opcode: Option<u16>,
    memory_position: u16,
    start: usize,
    end: usize,
}

/// The views of a column of split lines.
spec fn lines_view(ls: Seq<(Vec<char>, usize, usize)>) -> Seq<Seq<char>> {
    Seq::new(ls.len(), |i: int| ls[i].0@)
}

/// The line records of the first pass, as the second pass reads them.
spec fn recs_view(rs: Seq<AsmLine>) -> Seq<(Seq<char>, Option<u16>, u16)> {
    Seq::new(rs.len(), |i: int| (rs[i].chars@, rs[i].opcode, rs[i].memory_position))
}

/// Whether every split line sits at its recorded place in the source.
spec fn lines_wf(ls: Seq<(Vec<char>, usize, usize)>, src: Seq<char>) -> bool {
    forall|k: int| #![all_triggers]
        0 <= k < ls.len() ==> ls[k].1 <= ls[k].2 <= src.len() && ls[k].0@ == src.subrange(
            ls[k].1 as int,
            ls[k].2 as int,
        )
}

/// Whether every line record carries a non-label line that sits at its
/// recorded place in the source.
spec fn recs_wf(rs: Seq<AsmLine>, src: Seq<char>) -> bool {
    forall|j: int| #![all_triggers]
        0 <= j < rs.len() ==> rs[j].start <= rs[j].end <= src.len() && rs[j].chars@
            == src.subrange(rs[j].start as int, rs[j].end as int) && spec_line_label(rs[j].chars@)
            is None
}

/// Splits the source text into lines, each with the character range it
/// occupies in the source.
fn split_source(source: &str) -> (r: Vec<(Vec<char>, usize, usize)>)
    ensures
        lines_view(r@) == spec_lines(source@),
        lines_wf(r@, source@),
{
    let ghost src = source@;
    let chars = to_chars(source);
    let mut lines: Vec<(Vec<char>, usize, usize)> = Vec::new();
    let mut cur: Vec<char> = Vec::new();
    let mut cur_start: usize = 0;
    let mut i: usize = 0;
    while i < chars.len()
        invariant
            chars@ == src,
            i <= src.len(),
            cur_start <= i,
            cur@ == src.subrange(cur_start as int, i as int),
            spec_lines(src) == lines_view(lines@) + spec_split_lines_at(src, i as nat, cur@),
            lines_wf(lines@, src),
        decreases chars@.len() - i,
    {
        let c = chars[i];
        if c == '\n' {
            let ghost pcur = cur@;
            let mut endpos = i;
            if cur.len() > 0 && cur[cur.len() - 1] == '\r' {
                cur.pop();
                endpos = i - 1;
            }
            proof {
                assert(cur@ == spec_strip_cr(pcur));
                assert(cur@ =~= src.subrange(cur_start as int, endpos as int));
            }
            let ghost gline = cur@;
            let ghost plines = lines@;
            lines.push((cur, cur_start, endpos));
            proof {
                assert(lines_view(lines@) =~= lines_view(plines).push(gline));
                assert((lines_view(plines) + (seq![gline] + spec_split_lines_at(
                    src,
                    (i + 1) as nat,
                    Seq::<char>::empty(),
                ))) =~= lines_view(lines@) + spec_split_lines_at(
                    src,
                    (i + 1) as nat,
                    Seq::<char>::empty(),
                ));
            }
            cur = Vec::new();
            cur_start = i + 1;
            proof {
                assert(cur@ =~= src.subrange(cur_start as int, (i + 1) as int));
            }
        } else {
            cur.push(c);
            proof {
                assert(cur@ =~= src.subrange(cur_start as int, (i + 1) as int));
            }
        }
        i += 1;
    }
    if cur.len() > 0 {
        let ghost pcur = cur@;
        let mut endpos = chars.len();
        if cur[cur.len() - 1] == '\r' {
            cur.pop();
            endpos = endpos - 1;
        }
        proof {
            assert(cur@ == spec_strip_cr(pcur));
            assert(cur@ =~= src.subrange(cur_start as int, endpos as int));
        }
        let ghost gline = cur@;
        let ghost plines = lines@;
        lines.push((cur, cur_start, endpos));
        proof {
            assert(lines_view(lines@) =~= lines_view(plines).push(gline));
            assert((lines_view(plines) + seq![gline]) =~= lines_view(lines@));
        }
    }
    lines
}

/// The first pass: parses every line once, building the label table and
/// the ordered line records, each with its assigned two-byte slot.
fn run_pass1(source: &str, lines: &Vec<(Vec<char>, usize, usize)>) -> (r: Result<
    (LabelTable, Vec<AsmLine>, u16),
    AsmError,
>)
    requires
        lines_view(lines@) == spec_lines(source@),
        lines_wf(lines@, source@),
    ensures
        r is Ok ==> {
            let p = r->Ok_0;
            &&& p.0.wf()
            &&& spec_pass1(spec_lines(source@), 0, Map::empty(), seq![], 0x200)
                == Ok::<_, SpecAsmError>((p.0@, recs_view(p.1@), p.2))
            &&& recs_wf(p.1@, source@)
            &&& 0x200 <= p.2 <= 0x1000
            &&& p.2 as int == 0x200 + 2 * p.1@.len()
        },
        r is Err ==> spec_assemble(source@) is Err && asm_err_matches(
            r->Err_0,
            spec_assemble(source@)->Err_0,
        ),
{
    let ghost src = source@;
    let ghost glines = spec_lines(src);
    let mut labels = LabelTable::new();
    let mut recs: Vec<AsmLine> = Vec::new();
    proof {
        assert(recs_view(recs@) =~= Seq::<(Seq<char>, Option<u16>, u16)>::empty());
    }
    let mut pos: u16 = 0x200;
    let mut k: usize = 0;
    while k < lines.len()
        invariant
            labels.wf(),
            glines == spec_lines(src),
            src == source@,
            lines_view(lines@) == glines,
            lines_wf(lines@, src),
            k <= lines@.len(),
            0x200 <= pos <= 0x1000,
            pos as int == 0x200 + 2 * recs@.len(),
            recs_wf(recs@, src),
            spec_pass1(glines, 0, Map::empty(), seq![], 0x200) == spec_pass1(
                glines,
                k as nat,
                labels@,
                recs_view(recs@),
                pos,
            ),
        decreases lines@.len() - k,
    {
        let ghost pre_labels = labels@;
        let ghost pre_recs = recs_view(recs@);
        let r = parse_chars(&lines[k].0, &mut labels, pos);
        proof {
            assert(lines@[k as int].0@ == glines[k as int]);
        }
        match r {
            Ok(op) => {
                if pos >= 0x1000 {
                    proof {
                        let step = spec_pass1(glines, k as nat, pre_labels, pre_recs, pos);
                        assert(step is Err && step->Err_0 is TooLarge);
                        assert(spec_assemble(src) is Err && spec_assemble(src)->Err_0
                            is TooLarge);
                    }
                    return Err(AsmError::TooLarge);
                }
                let lc = lines[k].0.clone();
                proof {
                    assert(lc@ =~= lines@[k as int].0@);
                }
                recs.push(
                    AsmLine {
                        chars: lc,
                        opcode: Some(op),
                        memory_position: pos,
                        start: lines[k].1,
                        end: lines[k].2,
                    },
                );
                proof {
                    assert(recs_view(recs@) =~= pre_recs.push(
                        (glines[k as int], Some(op), pos),
                    ));
                }
                pos = pos + 2;
            },
            Err(OpcodeError::NoOpcode) => {},
            Err(OpcodeError::Incomplete) => {
                if pos >= 0x1000 {
                    proof {
                        let step = spec_pass1(glines, k as nat, pre_labels, pre_recs, pos);
                        assert(step is Err && step->Err_0 is TooLarge);
                        assert(spec_assemble(src) is Err && spec_assemble(src)->Err_0
                            is TooLarge);
                    }
                    return Err(AsmError::TooLarge);
                }
                let lc = lines[k].0.clone();
                proof {
                    assert(lc@ =~= lines@[k as int].0@);
                }
                recs.push(
                    AsmLine {
                        chars: lc,
                        opcode: None,
                        memory_position: pos,
                        start: lines[k].1,
                        end: lines[k].2,
                    },
                );
                proof {
                    assert(recs_view(recs@) =~= pre_recs.push((glines[k as int], None, pos)));
                }
                pos = pos + 2;
            },
            Err(OpcodeError::Malformed) => {
                proof {
                    assert(lines@[k as int].1 <= lines@[k as int].2 <= src.len());
                }
                let text = source.substring_char(lines[k].1, lines[k].2).to_owned();
                proof {
                    assert(text@ == src.subrange(
                        lines@[k as int].1 as int,
                        lines@[k as int].2 as int,
                    ));
                    assert(text@ == glines[k as int]);
                    let step = spec_pass1(glines, k as nat, pre_labels, pre_recs, pos);
                    assert(step is Err && (step->Err_0 matches SpecAsmError::Malformed { line }
                        && line == text@));
                    assert(spec_assemble(src) is Err && spec_assemble(src)->Err_0 == step->Err_0);
                }
                return Err(AsmError::Malformed { line: text });
            },
        }
        k += 1;
    }
    Ok((labels, recs, pos))
}

/// The second pass: re-parses every still-unresolved line with the
/// complete label table and serializes every opcode big-endian.
fn run_pass2(source: &str, labels: &LabelTable, recs: &Vec<AsmLine>) -> (r: Result<
    Vec<u8>,
    AsmError,
>)
    requires
        labels.wf(),
        recs_wf(recs@, source@),
    ensures
        r is Ok ==> spec_pass2(recs_view(recs@), labels@, 0, seq![]) == Ok::<
            Seq<u8>,
            SpecAsmError,
        >(r->Ok_0@) && r->Ok_0@.len() == 2 * recs@.len(),
        r is Err ==> spec_pass2(recs_view(recs@), labels@, 0, seq![]) is Err
            && asm_err_matches(
            r->Err_0,
            spec_pass2(recs_view(recs@), labels@, 0, seq![])->Err_0,
        ),
{
    let ghost src = source@;
    let ghost labels_final = labels@;
    let ghost grecs = recs_view(recs@);
    let mut out: Vec<u8> = Vec::new();
    let mut k2: usize = 0;
    while k2 < recs.len()
        invariant
            labels.wf(),
            labels@ == labels_final,
            src == source@,
            grecs == recs_view(recs@),
            recs_wf(recs@, src),
            k2 <= recs@.len(),
            out@.len() == 2 * k2,
            spec_pass2(grecs, labels_final, 0, seq![]) == spec_pass2(
                grecs,
                labels_final,
                k2 as nat,
                out@,
            ),
        decreases recs@.len() - k2,
    {
        proof {
            assert(recs@[k2 as int].start <= recs@[k2 as int].end <= src.len());
            assert(grecs[k2 as int].0 == recs@[k2 as int].chars@);
        }
        let op: u16 = match recs[k2].opcode {
            Some(op) => op,
            None => {
                match parse_chars_ro(&recs[k2].chars, labels) {
                    Ok(op) => op,
                    Err(OpcodeError::Malformed) => {
                        let text = source.substring_char(recs[k2].start, recs[k2].end).to_owned();
                        proof {
                            assert(text@ == src.subrange(
                                recs@[k2 as int].start as int,
                                recs@[k2 as int].end as int,
                            ));
                            assert(text@ == grecs[k2 as int].0);
                            let step = spec_pass2(grecs, labels_final, k2 as nat, out@);
                            assert(step is Err && (step->Err_0
                                matches SpecAsmError::Malformed { line } && line == text@));
                        }
                        return Err(AsmError::Malformed { line: text });
                    },
                    Err(_) => {
                        let text = source.substring_char(recs[k2].start, recs[k2].end).to_owned();
                        proof {
                            assert(text@ == src.subrange(
                                recs@[k2 as int].start as int,
                                recs@[k2 as int].end as int,
                            ));
                            assert(text@ == grecs[k2 as int].0);
                            let step = spec_pass2(grecs, labels_final, k2 as nat, out@);
                            assert(step is Err && (step->Err_0
                                matches SpecAsmError::Undefined { line } && line == text@));
                        }
                        return Err(AsmError::Undefined { line: text });
                    },
                }
            },
        };
        let ghost pre_out = out@;
        out.push((op / 256) as u8);
        out.push((op % 256) as u8);
        proof {
            assert(out@ == pre_out.push((op / 256) as u8).push((op % 256) as u8));
            assert(spec_pass2(grecs, labels_final, k2 as nat, pre_out) == spec_pass2(
                grecs,
                labels_final,
                (k2 + 1) as nat,
                out@,
            ));
        }
        k2 += 1;
    }
    Ok(out)
}

/// Assembles CHIP-8 source text into the flat byte sequence of its
/// 16-bit big-endian opcodes, resolving forward label references in a
/// second pass. The output always fits the program area of the memory
/// image. A fatal error identifies the offending source line.
pub fn assemble(source: &str) -> (r: Result<Vec<u8>, AsmError>)
    ensures
        r is Ok ==> spec_assemble(source@) == Ok::<Seq<u8>, SpecAsmError>(r->Ok_0@)
            && r->Ok_0@.len() <= 0xE00,
        r is Err ==> spec_assemble(source@) is Err && asm_err_matches(
            r->Err_0,
            spec_assemble(source@)->Err_0,
        ),
{
    let lines = split_source(source);
    let (labels, recs, pos) = match run_pass1(source, &lines) {
        Ok(p) => p,
        Err(e) => {
            return Err(e);
        },
    };
    let ghost labels_after_pass1 = labels@;
    match run_pass2(source, &labels, &recs) {
        Ok(bytes) => {
            proof {
                assert(spec_assemble(source@) == spec_pass2(
                    recs_view(recs@),
                    labels_after_pass1,
                    0,
                    seq![],
                ));
                assert(bytes@.len() == 2 * recs@.len() && 2 * recs@.len() <= 0xE00);
            }
            Ok(bytes)
        },
        Err(e) => {
            proof {
                assert(spec_assemble(source@) == spec_pass2(
                    recs_view(recs@),
                    labels_after_pass1,
                    0,
                    seq![],
                ));
            }
            Err(e)
        },
    }
}

} // verus!
