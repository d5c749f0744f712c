use vstd::prelude::*;
use vstd::slice::slice_subrange;

verus! {

/// Whether every byte of `s` is an ASCII digit.
pub open spec fn all_digits(s: Seq<u8>) -> bool {
    forall|i: int| 0 <= i < s.len() ==> 48 <= #[trigger] s[i] <= 57
}

/// The number that the ASCII digits `s` spell in decimal.
pub open spec fn decimal_value(s: Seq<u8>) -> int
    decreases s.len(),
{
    if s.len() == 0 {
        0
    } else {
        decimal_value(s.drop_last()) * 10 + (s.last() - 48)
    }
}

/// What `parse_decimal` returns for `s`.
pub open spec fn decimal_spec(s: Seq<u8>) -> Option<u32> {
    if s.len() > 0 && all_digits(s) && decimal_value(s) <= u32::MAX {
        Some(decimal_value(s) as u32)
    } else {
        None
    }
}

proof fn lemma_value_grows(s: Seq<u8>, i: int, j: int)
    requires
        0 <= i <= j <= s.len(),
        all_digits(s),
    ensures
        decimal_value(s.subrange(0, i)) <= decimal_value(s.subrange(0, j)),
        decimal_value(s.subrange(0, j)) >= 0,
    decreases j,
{
    if j > 0 {
        assert(s.subrange(0, j).drop_last() =~= s.subrange(0, j - 1));
        assert(48 <= s[j - 1] <= 57);
        lemma_value_grows(s, if i < j { i } else { j - 1 }, j - 1);
        if i == j {
            lemma_value_grows(s, j - 1, j - 1);
        }
    }
}

/// The decimal number that `s` spells, when `s` is a non-empty run of ASCII
/// digits whose value fits in a `u32`.
pub fn parse_decimal(s: &[u8]) -> (r: Option<u32>)
    ensures
        r == decimal_spec(s@),
{
    if s.len() == 0 {
        return None;
    }
    let mut acc: u64 = 0;
    let mut i: usize = 0;
    while i < s.len()
        invariant
            i <= s@.len(),
            all_digits(s@.subrange(0, i as int)),
            acc == decimal_value(s@.subrange(0, i as int)),
            acc <= u32::MAX,
        decreases s.len() - i,
    {
        let b = s[i];
        proof {
            assert(s@.subrange(0, i + 1).drop_last() =~= s@.subrange(0, i as int));
            assert(s@.subrange(0, i + 1).last() == b);
        }
        if b < 48 || b > 57 {
            proof {
                assert(!all_digits(s@)) by {
                    assert(s@[i as int] == b);
                }
            }
            return None;
        }
        let next = acc * 10 + (b - 48) as u64;
        if next > u32::MAX as u64 {
            proof {
                let k = s@.len() as int;
                if all_digits(s@) {
                    assert(s@.subrange(0, k) =~= s@);
                    lemma_value_grows(s@, i + 1, k);
                }
            }
            return None;
        }
        acc = next;
        i = i + 1;
        proof {
            assert forall|k: int| 0 <= k < i implies 48 <= #[trigger] s@.subrange(0, i as int)[k] <= 57 by {
                if k < i - 1 {
                    assert(s@.subrange(0, i as int)[k] == s@.subrange(0, i - 1)[k]);
                }
            }
        }
    }
    assert(s@.subrange(0, s@.len() as int) =~= s@);
    Some(acc as u32)
}

/// The ASCII bytes of `socket:[`.
pub open spec fn socket_prefix() -> Seq<u8> {
    seq![115u8, 111u8, 99u8, 107u8, 101u8, 116u8, 58u8, 91u8]
}

/// The socket inode that a descriptor link names, when the link has the
/// form `socket:[N]`.
pub fn socket_inode(link: &[u8]) -> (r: Option<u32>)
    ensures
        r == (if link@.len() >= 9 && link@.subrange(0, 8) == socket_prefix() && link@.last() == 93 {
            decimal_spec(link@.subrange(8, link@.len() - 1))
        } else {
            None
        }),
{
    let n = link.len();
    if n < 9 || link[n - 1] != 93 {
        return None;
    }
    if !(link[0] == 115 && link[1] == 111 && link[2] == 99 && link[3] == 107 && link[4] == 101
        && link[5] == 116 && link[6] == 58 && link[7] == 91) {
        proof {
            if link@.subrange(0, 8) == socket_prefix() {
                assert(link@.subrange(0, 8)[0] == link@[0]);
                assert(link@.subrange(0, 8)[1] == link@[1]);
                assert(link@.subrange(0, 8)[2] == link@[2]);
                assert(link@.subrange(0, 8)[3] == link@[3]);
                assert(link@.subrange(0, 8)[4] == link@[4]);
                assert(link@.subrange(0, 8)[5] == link@[5]);
                assert(link@.subrange(0, 8)[6] == link@[6]);
                assert(link@.subrange(0, 8)[7] == link@[7]);
            }
        }
        return None;
    }
    assert(link@.subrange(0, 8) =~= socket_prefix());
    let inner = slice_subrange(link, 8, n - 1);
    parse_decimal(inner)
}

} // verus!
