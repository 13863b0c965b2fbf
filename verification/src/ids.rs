//! Rule ids: a ten-character millisecond timestamp (so ids sort by creation
//! time) followed by sixteen characters of operating-system randomness, all
//! in Crockford's base-32 alphabet.
use vstd::prelude::*;
use crate::text::string_of;
use crate::clock::{now_since_epoch, millis_of};

verus! {

/// Crockford's base-32 alphabet: digits, then capitals without I, L, O, U.
pub open spec fn id_alphabet() -> Seq<char> {
    seq![
        '0', '1', '2', '3', '4', '5', '6', '7', '8', '9', 'A', 'B', 'C', 'D', 'E', 'F',
        'G', 'H', 'J', 'K', 'M', 'N', 'P', 'Q', 'R', 'S', 'T', 'V', 'W', 'X', 'Y', 'Z',
    ]
}

/// The bytes read as one big-endian number.
pub open spec fn big_endian(b: Seq<u8>) -> u128
    decreases b.len(),
{
    if b.len() == 0 {
        0
    } else {
        (big_endian(b.drop_last()) << 8u128) | (b.last() as u128)
    }
}

/// Timestamp digit `i` (0..10): the five bits of `ms` at that position,
/// most significant first.
pub open spec fn time_digit(ms: u64, i: int) -> int {
    ((ms >> ((45 - 5 * i) as u64)) & 31u64) as int
}

/// Random digit `j` (0..16): five bits of the ten random bytes read as one
/// 80-bit big-endian number, most significant first.
pub open spec fn random_digit(tail: Seq<u8>, j: int) -> int {
    ((big_endian(tail) >> ((75 - 5 * j) as u128)) & 31u128) as int
}

/// The id made from a millisecond timestamp and ten random bytes.
pub open spec fn spec_id(ms: u64, tail: Seq<u8>) -> Seq<char> {
    Seq::new(10, |i: int| id_alphabet()[time_digit(ms, i)]) + Seq::new(
        16,
        |j: int| id_alphabet()[random_digit(tail, j)],
    )
}

/// An id this library can have made: some timestamp and some ten bytes.
pub open spec fn is_generated_id(id: Seq<char>) -> bool {
    exists|ms: u64, tail: Seq<u8>| tail.len() == 10 && id == #[trigger] spec_id(ms, tail)
}

fn alphabet() -> (a: Vec<char>)
    ensures
        a@ == id_alphabet(),
{
    let a = vec![
        '0', '1', '2', '3', '4', '5', '6', '7', '8', '9', 'A', 'B', 'C', 'D', 'E', 'F',
        'G', 'H', 'J', 'K', 'M', 'N', 'P', 'Q', 'R', 'S', 'T', 'V', 'W', 'X', 'Y', 'Z',
    ];
    assert(a@ =~= id_alphabet());
    a
}

/// The id for the given millisecond timestamp and random bytes.
pub fn encode_id(ms: u64, tail: &[u8; 10]) -> (id: String)
    ensures
        id@ == spec_id(ms, tail@),
        id@.len() == 26,
{
    let a = alphabet();
    let mut out: Vec<char> = Vec::new();
    let mut i: u64 = 0;
    while i < 10
        invariant
            i <= 10,
            a@ == id_alphabet(),
            out@ =~= Seq::new(i as nat, |k: int| id_alphabet()[time_digit(ms, k)]),
        decreases 10 - i,
    {
        let shift: u64 = 45 - 5 * i;
        let d: u64 = (ms >> shift) & 31;
        assert(d < 32) by (bit_vector)
            requires
                d == (ms >> shift) & 31u64,
        ;
        out.push(a[d as usize]);
        i = i + 1;
    }
    let mut n: u128 = 0;
    let mut k: usize = 0;
    while k < 10
        invariant
            k <= 10,
            tail@.len() == 10,
            n == big_endian(tail@.take(k as int)),
        decreases 10 - k,
    {
        assert(tail@.take(k + 1).drop_last() =~= tail@.take(k as int));
        n = (n << 8u128) | (tail[k] as u128);
        k = k + 1;
    }
    assert(tail@.take(10) =~= tail@);
    let mut j: u128 = 0;
    while j < 16
        invariant
            j <= 16,
            a@ == id_alphabet(),
            n == big_endian(tail@),
            out@ =~= Seq::new(10, |k: int| id_alphabet()[time_digit(ms, k)]) + Seq::new(
                j as nat,
                |k: int| id_alphabet()[random_digit(tail@, k)],
            ),
        decreases 16 - j,
    {
        let shift: u128 = 75 - 5 * j;
        let d: u128 = (n >> shift) & 31;
        assert(d < 32) by (bit_vector)
            requires
                d == (n >> shift) & 31u128,
        ;
        out.push(a[d as usize]);
        j = j + 1;
    }
    string_of(&out)
}

#[verifier::external_type_specification]
#[verifier::external_body]
pub struct ExRandomError(getrandom::Error);

/// `getrandom::getrandom`: fills the buffer from the operating system's
/// random source, or reports that the source failed. The bytes are random,
/// so nothing is stated of them.
#[verifier::external_body]
fn fill_random(buf: &mut [u8; 10]) -> Result<(), getrandom::Error> {
    getrandom::getrandom(buf)
}

/// The millisecond timestamp of an id made at a clock reading: the
/// reading's whole milliseconds (`Duration::as_millis`), truncated to 64
/// bits; 0 when the clock reads before the epoch.
pub open spec fn reading_millis(now: Option<(u64, u32)>) -> u64 {
    match now {
        Some(t) => millis_of(t.0, t.1) as u64,
        None => 0,
    }
}

/// The id for a clock reading (seconds and nanoseconds since the epoch,
/// `None` before the epoch) and ten random bytes.
pub fn id_at(now: Option<(u64, u32)>, tail: &[u8; 10]) -> (id: String)
    ensures
        id@ == spec_id(reading_millis(now), tail@),
        id@.len() == 26,
{
    let ms: u64 = match now {
        Some((secs, nanos)) => ((secs as u128) * 1000 + (nanos as u128) / 1_000_000) as u64,
        None => 0,
    };
    encode_id(ms, tail)
}

/// A fresh id: `id_at` of some reading of the clock and ten bytes from the
/// operating system's random source; `None` when the random source fails.
pub fn new_id() -> (r: Option<String>)
    ensures
        r matches Some(id) ==> exists|now: Option<(u64, u32)>, tail: Seq<u8>|
            {
                &&& now matches Some(t) ==> t.1 < 1_000_000_000
                &&& tail.len() == 10
                &&& id@ == #[trigger] spec_id(reading_millis(now), tail)
            },
        r matches Some(id) ==> is_generated_id(id@) && id@.len() == 26,
{
    let now = now_since_epoch();
    let mut tail: [u8; 10] = [0u8; 10];
    match fill_random(&mut tail) {
        Ok(()) => {},
        Err(_) => return None,
    }
    let id = id_at(now, &tail);
    assert(tail@.len() == 10);
    Some(id)
}

} // verus!
