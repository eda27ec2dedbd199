//! A syntactic pre-scan of inbound datagrams. The bencode codec is only ever
//! called on byte strings this scan accepts: exactly one complete value with
//! every container closed, every number at most eighteen digits, and every
//! byte-string length at most eight digits and within the input. On that
//! domain the codec returns normally; outside it the datagram is dropped
//! without consulting the codec.

use vstd::prelude::*;

verus! {

/// First position at or after `i` whose byte is not an ASCII digit.
pub open spec fn digit_run(bytes: Seq<u8>, i: int) -> int
    decreases bytes.len() - i,
{
    if i < bytes.len() && 48 <= bytes[i] && bytes[i] <= 57 {
        digit_run(bytes, i + 1)
    } else {
        i
    }
}

/// The number the digits at `i..d` spell, most significant first.
pub open spec fn digits_value(bytes: Seq<u8>, i: int, d: int) -> int
    decreases d - i,
{
    if i >= d {
        0
    } else {
        digits_value(bytes, i, d - 1) * 10 + (bytes[d - 1] - 48)
    }
}

/// Ten to the power `n`.
pub open spec fn pow10(n: nat) -> int
    decreases n,
{
    if n == 0 {
        1
    } else {
        10 * pow10((n - 1) as nat)
    }
}

/// Position just past an integer token, starting after its `i` marker: an
/// optional minus, one to eighteen digits, and the closing `e`. Eighteen
/// digits keep the value well inside a 64-bit signed integer.
pub open spec fn scan_int(bytes: Seq<u8>, i: int) -> Option<int> {
    let s = if i < bytes.len() && bytes[i] == 45 {
        i + 1
    } else {
        i
    };
    let d = digit_run(bytes, s);
    if d - s < 1 || d - s > 18 {
        None
    } else if d < bytes.len() && bytes[d] == 101 {
        Some(d + 1)
    } else {
        None
    }
}

/// Position just past a byte-string token starting at `i`: one to eight
/// length digits, a colon, and that many content bytes, all present.
pub open spec fn scan_string(bytes: Seq<u8>, i: int) -> Option<int> {
    let d = digit_run(bytes, i);
    if d - i < 1 || d - i > 8 {
        None
    } else {
        let len = digits_value(bytes, i, d);
        if d < bytes.len() && bytes[d] == 58 && d + 1 + len <= bytes.len() {
            Some(d + 1 + len)
        } else {
            None
        }
    }
}

/// From position `i` with `depth` containers open, the rest of the input is
/// exactly the remainder of one complete value.
pub open spec fn scan_from(bytes: Seq<u8>, i: int, depth: int) -> bool
    decreases bytes.len() - i,
{
    if i >= bytes.len() {
        false
    } else {
        let c = bytes[i];
        if c == 108 || c == 100 {  // 'l' or 'd': open a container
            scan_from(bytes, i + 1, depth + 1)
        } else if c == 101 {  // 'e': close one
            depth > 0 && (if depth == 1 {
                i + 1 == bytes.len()
            } else {
                scan_from(bytes, i + 1, depth - 1)
            })
        } else if c == 105 {  // 'i': an integer
            match scan_int(bytes, i + 1) {
                Some(j) => i < j && (if depth == 0 {
                    j == bytes.len()
                } else {
                    scan_from(bytes, j, depth)
                }),
                None => false,
            }
        } else if 48 <= c && c <= 57 {  // a byte string
            match scan_string(bytes, i) {
                Some(j) => i < j && (if depth == 0 {
                    j == bytes.len()
                } else {
                    scan_from(bytes, j, depth)
                }),
                None => false,
            }
        } else {
            false
        }
    }
}

/// The byte strings the codec may be called on: empty (the codec's empty
/// document), or exactly one complete bencode value within the bounds above.
pub open spec fn bencode_wf(bytes: Seq<u8>) -> bool {
    bytes.len() == 0 || scan_from(bytes, 0, 0)
}

proof fn lemma_digit_run_range(bytes: Seq<u8>, i: int)
    requires
        0 <= i <= bytes.len(),
    ensures
        i <= digit_run(bytes, i) <= bytes.len(),
        forall|t: int| i <= t < digit_run(bytes, i) ==> 48 <= #[trigger] bytes[t] <= 57,
    decreases bytes.len() - i,
{
    if i < bytes.len() && 48 <= bytes[i] && bytes[i] <= 57 {
        lemma_digit_run_range(bytes, i + 1);
    }
}

proof fn lemma_pow10_mono(a: nat, b: nat)
    requires
        a <= b,
    ensures
        pow10(a) <= pow10(b),
        pow10(a) >= 1,
    decreases b,
{
    if b > 0 {
        if a == b {
            lemma_pow10_mono((a - 1) as nat, (b - 1) as nat);
        } else {
            lemma_pow10_mono(a, (b - 1) as nat);
        }
    }
}

fn digit_run_exec(bytes: &[u8], i: usize) -> (d: usize)
    requires
        i <= bytes@.len(),
    ensures
        d as int == digit_run(bytes@, i as int),
        i <= d <= bytes@.len(),
{
    let n = bytes.len();
    let mut d = i;
    while d < n && 48 <= bytes[d] && bytes[d] <= 57
        invariant
            i <= d <= n,
            n == bytes@.len(),
            digit_run(bytes@, i as int) == digit_run(bytes@, d as int),
        decreases n - d,
    {
        d += 1;
    }
    d
}

fn scan_int_exec(bytes: &[u8], i: usize) -> (r: Option<usize>)
    requires
        i <= bytes@.len(),
    ensures
        match r {
            Some(j) => scan_int(bytes@, i as int) == Some(j as int) && i < j <= bytes@.len(),
            None => scan_int(bytes@, i as int) is None,
        },
{
    let n = bytes.len();
    let mut s = i;
    if s < n && bytes[s] == 45 {
        s += 1;
    }
    let d = digit_run_exec(bytes, s);
    let count = d - s;
    if count < 1 || count > 18 {
        return None;
    }
    if d < n && bytes[d] == 101 {
        Some(d + 1)
    } else {
        None
    }
}

fn scan_string_exec(bytes: &[u8], i: usize) -> (r: Option<usize>)
    requires
        i <= bytes@.len(),
    ensures
        match r {
            Some(j) => scan_string(bytes@, i as int) == Some(j as int) && i < j <= bytes@.len(),
            None => scan_string(bytes@, i as int) is None,
        },
{
    let n = bytes.len();
    let d = digit_run_exec(bytes, i);
    proof {
        lemma_digit_run_range(bytes@, i as int);
    }
    let count = d - i;
    if count < 1 || count > 8 {
        return None;
    }
    let mut acc: u64 = 0;
    let mut k = i;
    while k < d
        invariant
            i <= k <= d <= n,
            n == bytes@.len(),
            d - i <= 8,
            forall|t: int| i <= t < d ==> 48 <= #[trigger] bytes@[t] <= 57,
            acc as int == digits_value(bytes@, i as int, k as int),
            (acc as int) < pow10((k - i) as nat),
        decreases d - k,
    {
        proof {
            lemma_pow10_mono((k - i) as nat, 7);
            assert(pow10(7) == 10000000) by {
                assert(pow10(0) == 1);
                assert(pow10(1) == 10);
                assert(pow10(2) == 100);
                assert(pow10(3) == 1000);
                assert(pow10(4) == 10000);
                assert(pow10(5) == 100000);
                assert(pow10(6) == 1000000);
            }
        }
        let dig = bytes[k];
        acc = acc * 10 + ((dig - 48) as u64);
        k += 1;
    }
    if d < n && bytes[d] == 58 {
        let rem = (n - d) - 1;
        if acc <= rem as u64 {
            Some(d + 1 + (acc as usize))
        } else {
            None
        }
    } else {
        None
    }
}

/// Whether the codec may be called on these bytes.
pub fn scan_bencode(bytes: &[u8]) -> (r: bool)
    ensures
        r == bencode_wf(bytes@),
{
    let n = bytes.len();
    if n == 0 {
        return true;
    }
    let mut i: usize = 0;
    let mut depth: usize = 0;
    while i < n
        invariant
            i <= n,
            n == bytes@.len(),
            depth <= i,
            scan_from(bytes@, 0, 0) == scan_from(bytes@, i as int, depth as int),
        decreases n - i,
    {
        let c = bytes[i];
        if c == 108 || c == 100 {
            depth += 1;
            i += 1;
        } else if c == 101 {
            if depth == 0 {
                return false;
            }
            depth -= 1;
            i += 1;
            if depth == 0 {
                return i == n;
            }
        } else if c == 105 {
            match scan_int_exec(bytes, i + 1) {
                Some(j) => {
                    if depth == 0 {
                        return j == n;
                    }
                    i = j;
                },
                None => {
                    return false;
                },
            }
        } else if 48 <= c && c <= 57 {
            match scan_string_exec(bytes, i) {
                Some(j) => {
                    if depth == 0 {
                        return j == n;
                    }
                    i = j;
                },
                None => {
                    return false;
                },
            }
        } else {
            return false;
        }
    }
    false
}

} // verus!
