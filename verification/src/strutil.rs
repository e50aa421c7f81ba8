//! Decimal rendering of timings and node counts, in integer arithmetic.
use vstd::prelude::*;

verus! {

/// The decimal digits of `n`, as ASCII bytes.
pub open spec fn spec_dec_bytes(n: nat) -> Seq<u8>
    decreases n,
{
    if n < 10 {
        seq![(48 + n) as u8]
    } else {
        spec_dec_bytes(n / 10).push((48 + n % 10) as u8)
    }
}

/// The characters that a sequence of ASCII bytes spells.
pub open spec fn spec_chars_of(bytes: Seq<u8>) -> Seq<char> {
    bytes.map(|i: int, b: u8| b as char)
}

/// Append the decimal digits of `n`.
fn push_dec(n: u128, out: &mut Vec<u8>)
    ensures
        final(out)@ == old(out)@ + spec_dec_bytes(n as nat),
        final(out)@.len() > old(out)@.len(),
    decreases n,
{
    if n >= 10 {
        push_dec(n / 10, out);
    }
    out.push((48 + (n % 10) as u8) as u8);
    proof {
        if n < 10 {
            assert(out@ =~= old(out)@ + spec_dec_bytes(n as nat));
        } else {
            assert(out@ =~= old(out)@ + spec_dec_bytes(n as nat));
        }
    }
}

/// Build an ASCII string from its bytes.
///
/// Relies on `String::from_utf8`: a sequence of bytes below 128 is valid
/// UTF-8, and decodes to exactly those characters.
#[verifier::external_body]
pub(crate) fn ascii_to_string(bytes: Vec<u8>) -> (r: String)
    requires
        forall|i: int| 0 <= i < bytes@.len() ==> bytes@[i] < 128,
    ensures
        r@ == spec_chars_of(bytes@),
{
    String::from_utf8(bytes).unwrap_or_default()
}

/// The rendering of a duration: plain milliseconds below one second, else
/// seconds with two decimals.
pub open spec fn spec_time_bytes(ms: nat) -> Seq<u8> {
    if ms < 1000 {
        spec_dec_bytes(ms) + seq![109u8, 115u8]
    } else {
        spec_dec_bytes(ms / 1000) + seq![46u8] + spec_dec_bytes((ms % 1000) / 10 / 10)
            + spec_dec_bytes((ms % 1000) / 10 % 10) + seq![115u8]
    }
}

/// The rendering of a node count: plain below a thousand, thousands with two
/// decimals below a million, else millions with two decimals.
pub open spec fn spec_number_bytes(n: nat) -> Seq<u8> {
    if n < 1000 {
        spec_dec_bytes(n)
    } else if n < 1_000_000 {
        spec_dec_bytes(n / 1000) + seq![46u8] + spec_dec_bytes(n % 1000 / 100) + spec_dec_bytes(
            n % 1000 / 10 % 10,
        ) + seq![75u8]
    } else {
        spec_dec_bytes(n / 1_000_000) + seq![46u8] + spec_dec_bytes(n % 1_000_000 / 100_000)
            + spec_dec_bytes(n % 1_000_000 / 10_000 % 10) + seq![77u8]
    }
}

/// All bytes of a decimal rendering are ASCII digits.
proof fn lemma_dec_ascii(n: nat)
    ensures
        forall|i: int| 0 <= i < spec_dec_bytes(n).len() ==> 48 <= #[trigger] spec_dec_bytes(n)[i]
            <= 57,
    decreases n,
{
    if n >= 10 {
        lemma_dec_ascii(n / 10);
        let tail = spec_dec_bytes(n / 10);
        assert forall|i: int| 0 <= i < spec_dec_bytes(n).len() implies 48
            <= #[trigger] spec_dec_bytes(n)[i] <= 57 by {
            if i < tail.len() {
                assert(spec_dec_bytes(n)[i] == tail[i]);
            } else {
                assert(spec_dec_bytes(n)[i] == (48 + n % 10) as u8);
            }
        }
    } else {
        assert(spec_dec_bytes(n) == seq![(48 + n) as u8]);
        assert(spec_dec_bytes(n)[0] == (48 + n) as u8);
    }
}

/// All bytes of a decimal rendering are ASCII digits.
pub proof fn lemma_dec_ascii_pub(n: nat)
    ensures
        forall|i: int| 0 <= i < spec_dec_bytes(n).len() ==> 48 <= #[trigger] spec_dec_bytes(n)[i]
            <= 57,
{
    lemma_dec_ascii(n);
}

pub struct StringUtils;

impl StringUtils {
    /// Render a duration in milliseconds.
    pub fn time_to_string(miliseconds: u128) -> (r: String)
        ensures
            r@ == spec_chars_of(spec_time_bytes(miliseconds as nat)),
    {
        let mut bytes: Vec<u8> = Vec::new();
        if miliseconds < 1000 {
            push_dec(miliseconds, &mut bytes);
            bytes.push(109);
            bytes.push(115);
            proof {
                assert(bytes@ =~= spec_time_bytes(miliseconds as nat));
                lemma_dec_ascii(miliseconds as nat);
            }
        } else {
            push_dec(miliseconds / 1000, &mut bytes);
            bytes.push(46);
            push_dec((miliseconds % 1000) / 10 / 10, &mut bytes);
            push_dec((miliseconds % 1000) / 10 % 10, &mut bytes);
            bytes.push(115);
            proof {
                assert(bytes@ =~= spec_time_bytes(miliseconds as nat));
                lemma_dec_ascii((miliseconds / 1000) as nat);
                lemma_dec_ascii(((miliseconds % 1000) / 10 / 10) as nat);
                lemma_dec_ascii(((miliseconds % 1000) / 10 % 10) as nat);
            }
        }
        ascii_to_string(bytes)
    }

    /// Render a large count with a thousands or millions suffix.
    pub fn large_number_to_string(number: u128) -> (r: String)
        ensures
            r@ == spec_chars_of(spec_number_bytes(number as nat)),
    {
        let mut bytes: Vec<u8> = Vec::new();
        if number < 1000 {
            push_dec(number, &mut bytes);
            proof {
                assert(bytes@ =~= spec_number_bytes(number as nat));
                lemma_dec_ascii(number as nat);
            }
        } else if number < 1_000_000 {
            push_dec(number / 1000, &mut bytes);
            bytes.push(46);
            push_dec(number % 1000 / 100, &mut bytes);
            push_dec(number % 1000 / 10 % 10, &mut bytes);
            bytes.push(75);
            proof {
                assert(bytes@ =~= spec_number_bytes(number as nat));
                lemma_dec_ascii((number / 1000) as nat);
                lemma_dec_ascii((number % 1000 / 100) as nat);
                lemma_dec_ascii((number % 1000 / 10 % 10) as nat);
            }
        } else {
            push_dec(number / 1_000_000, &mut bytes);
            bytes.push(46);
            push_dec(number % 1_000_000 / 100_000, &mut bytes);
            push_dec(number % 1_000_000 / 10_000 % 10, &mut bytes);
            bytes.push(77);
            proof {
                assert(bytes@ =~= spec_number_bytes(number as nat));
                lemma_dec_ascii((number / 1_000_000) as nat);
                lemma_dec_ascii((number % 1_000_000 / 100_000) as nat);
                lemma_dec_ascii((number % 1_000_000 / 10_000 % 10) as nat);
            }
        }
        ascii_to_string(bytes)
    }
}

} // verus!
