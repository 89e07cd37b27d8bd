use vstd::prelude::*;

verus! {

/// The remote reading, as a single unsigned 32-bit field.
#[derive(Clone, Copy, Debug, PartialEq, Eq, Structural)]
pub struct Leds {
    pub led0: u32,
}

/// Why a remote payload could not be read as an unsigned 32-bit value.
#[derive(Clone, Copy, Debug, PartialEq, Eq, Structural)]
pub enum DecodeError {
    /// The payload is neither a boolean literal nor a decimal number.
    Malformed,
    /// The payload is a decimal number above `u32::MAX`.
    OutOfRange,
}

pub open spec fn is_digit(b: u8) -> bool {
    48 <= b <= 57
}

pub open spec fn all_digits(s: Seq<u8>) -> bool {
    forall|i: int| 0 <= i < s.len() ==> is_digit(#[trigger] s[i])
}

/// The number that the decimal digits `s` spell.
pub open spec fn decimal_value(s: Seq<u8>) -> nat
    decreases s.len(),
{
    if s.len() == 0 {
        0
    } else {
        decimal_value(s.drop_last()) * 10 + (s.last() - 48) as nat
    }
}

/// What a payload decodes to: the literal `true` reads as 1 and `false` as
/// 0, a non-empty run of decimal digits as its value when that fits in 32
/// bits; anything else is an error.
pub open spec fn decode_spec(p: Seq<u8>) -> Result<u32, DecodeError> {
    if p == seq![116u8, 114u8, 117u8, 101u8] {
        Ok(1)
    } else if p == seq![102u8, 97u8, 108u8, 115u8, 101u8] {
        Ok(0)
    } else if p.len() == 0 || !all_digits(p) {
        Err(DecodeError::Malformed)
    } else if decimal_value(p) > u32::MAX {
        Err(DecodeError::OutOfRange)
    } else {
        Ok(decimal_value(p) as u32)
    }
}

proof fn lemma_decimal_grows(s: Seq<u8>, i: int)
    requires
        0 <= i <= s.len(),
        all_digits(s),
    ensures
        decimal_value(s.subrange(0, i)) <= decimal_value(s),
    decreases s.len() - i,
{
    if i < s.len() {
        lemma_decimal_grows(s, i + 1);
        let t = s.subrange(0, i + 1);
        assert(t.drop_last() =~= s.subrange(0, i));
    } else {
        assert(s.subrange(0, i) =~= s);
    }
}

fn is_literal(p: &[u8], lit: &[u8]) -> (r: bool)
    ensures
        r == (p@ == lit@),
{
    if p.len() != lit.len() {
        return false;
    }
    let mut i: usize = 0;
    while i < p.len()
        invariant
            p@.len() == lit@.len(),
            0 <= i <= p@.len(),
            forall|j: int| 0 <= j < i ==> p@[j] == lit@[j],
        decreases p@.len() - i,
    {
        if p[i] != lit[i] {
            return false;
        }
        i = i + 1;
    }
    assert(p@ =~= lit@);
    true
}

fn check_digits(p: &[u8]) -> (r: bool)
    ensures
        r == all_digits(p@),
{
    let mut i: usize = 0;
    while i < p.len()
        invariant
            0 <= i <= p@.len(),
            forall|j: int| 0 <= j < i ==> is_digit(#[trigger] p@[j]),
        decreases p@.len() - i,
    {
        if p[i] < 48 || p[i] > 57 {
            assert(!is_digit(p@[i as int]));
            return false;
        }
        i = i + 1;
    }
    true
}

/// Decodes a remote payload into the reading it carries.
pub fn decode_leds(payload: &[u8]) -> (r: Result<Leds, DecodeError>)
    ensures
        r == (match decode_spec(payload@) {
            Ok(v) => Ok(Leds { led0: v }),
            Err(e) => Err(e),
        }),
{
    let true_lit: [u8; 4] = [116u8, 114u8, 117u8, 101u8];
    let false_lit: [u8; 5] = [102u8, 97u8, 108u8, 115u8, 101u8];
    assert(true_lit@ =~= seq![116u8, 114u8, 117u8, 101u8]);
    assert(false_lit@ =~= seq![102u8, 97u8, 108u8, 115u8, 101u8]);
    if is_literal(payload, true_lit.as_slice()) {
        return Ok(Leds { led0: 1 });
    }
    if is_literal(payload, false_lit.as_slice()) {
        return Ok(Leds { led0: 0 });
    }
    if payload.len() == 0 || !check_digits(payload) {
        return Err(DecodeError::Malformed);
    }
    let mut value: u64 = 0;
    let mut i: usize = 0;
    while i < payload.len()
        invariant
            0 <= i <= payload@.len(),
            all_digits(payload@),
            value as nat == decimal_value(payload@.subrange(0, i as int)),
            value <= u32::MAX,
        decreases payload@.len() - i,
    {
        let ghost prefix = payload@.subrange(0, i as int);
        let ghost next = payload@.subrange(0, i as int + 1);
        assert(next.drop_last() =~= prefix);
        assert(is_digit(payload@[i as int]));
        value = value * 10 + (payload[i] - 48) as u64;
        if value > 4294967295 {
            proof {
                lemma_decimal_grows(payload@, i as int + 1);
            }
            return Err(DecodeError::OutOfRange);
        }
        i = i + 1;
    }
    assert(payload@.subrange(0, payload@.len() as int) =~= payload@);
    Ok(Leds { led0: value as u32 })
}

} // verus!
