//! The range of keys that a prefix scan reads.

use vstd::prelude::*;
use crate::numbers::differs_at;
use crate::numbers::lex_less;

verus! {

/// The exclusive upper bound of the keys that begin with `prefix`: the
/// prefix without its trailing `0xFF` bytes and with its last remaining byte
/// raised by one. A prefix made of `0xFF` bytes alone has no upper bound.
pub open spec fn spec_upper_bound(prefix: Seq<u8>) -> Option<Seq<u8>>
    decreases prefix.len(),
{
    if prefix.len() == 0 {
        None
    } else if prefix.last() != 0xff {
        Some(prefix.drop_last().push((prefix.last() + 1) as u8))
    } else {
        spec_upper_bound(prefix.drop_last())
    }
}

/// Computes the exclusive upper bound of a prefix scan.
pub fn build_upper_bound(prefix: &[u8]) -> (bound: Option<Vec<u8>>)
    ensures
        match spec_upper_bound(prefix@) {
            Some(stop) => bound matches Some(b) && b@ == stop,
            None => bound is None,
        },
{
    let mut end: usize = prefix.len();
    assert(prefix@.subrange(0, end as int) =~= prefix@);
    while end > 0
        invariant
            end <= prefix.len(),
            spec_upper_bound(prefix@) == spec_upper_bound(prefix@.subrange(0, end as int)),
        decreases end,
    {
        let ghost head = prefix@.subrange(0, end as int);
        end = end - 1;
        assert(head.drop_last() =~= prefix@.subrange(0, end as int));
        assert(head.last() == prefix@[end as int]);
        if prefix[end] != 0xff {
            let mut stop: Vec<u8> = Vec::new();
            let mut i: usize = 0;
            while i < end
                invariant
                    i <= end,
                    end < prefix.len(),
                    stop@ == prefix@.subrange(0, i as int),
                decreases end - i,
            {
                stop.push(prefix[i]);
                assert(stop@ =~= prefix@.subrange(0, i + 1));
                i = i + 1;
            }
            stop.push(prefix[end] + 1);
            return Some(stop);
        }
    }
    None
}

/// `key` begins with `prefix`.
pub open spec fn has_prefix(key: Seq<u8>, prefix: Seq<u8>) -> bool {
    prefix.len() <= key.len() && key.subrange(0, prefix.len() as int) == prefix
}

/// `key` lies in the range that a scan of `prefix` reads: it is not less
/// than the prefix, and it is less than the upper bound where there is one.
pub open spec fn in_scan_range(key: Seq<u8>, prefix: Seq<u8>) -> bool {
    &&& !lex_less(key, prefix)
    &&& match spec_upper_bound(prefix) {
        Some(stop) => lex_less(key, stop),
        None => true,
    }
}

/// The position of the byte that the upper bound raises: behind it the
/// prefix holds `0xFF` bytes only.
pub proof fn lemma_upper_bound_shape(prefix: Seq<u8>) -> (at: int)
    ensures
        match spec_upper_bound(prefix) {
            Some(stop) => 0 <= at < prefix.len() && prefix[at] != 0xff && stop == prefix.subrange(
                0,
                at,
            ).push((prefix[at] + 1) as u8),
            None => at == -1,
        },
        forall|i: int| at < i < prefix.len() ==> prefix[i] == 0xff,
    decreases prefix.len(),
{
    if prefix.len() == 0 {
        -1
    } else if prefix.last() != 0xff {
        assert(prefix.drop_last() =~= prefix.subrange(0, prefix.len() - 1));
        prefix.len() - 1
    } else {
        let head = prefix.drop_last();
        let at = lemma_upper_bound_shape(head);
        if at >= 0 {
            assert(head.subrange(0, at) =~= prefix.subrange(0, at));
        }
        assert forall|i: int| at < i < prefix.len() implies prefix[i] == 0xff by {
            if i < head.len() {
                assert(head[i] == prefix[i]);
            }
        }
        at
    }
}

/// The first position, at or after `from`, where `key` ends or differs from
/// `prefix`.
proof fn lemma_first_mismatch(key: Seq<u8>, prefix: Seq<u8>, from: int) -> (at: int)
    requires
        !has_prefix(key, prefix),
        0 <= from <= prefix.len(),
        from <= key.len(),
        key.subrange(0, from) == prefix.subrange(0, from),
    ensures
        from <= at < prefix.len(),
        at <= key.len(),
        key.subrange(0, at) == prefix.subrange(0, at),
        at == key.len() || key[at] != prefix[at],
    decreases prefix.len() - from,
{
    if from == prefix.len() {
        assert(prefix.subrange(0, from) =~= prefix);
        assert(false);
        from
    } else if from == key.len() || key[from] != prefix[from] {
        from
    } else {
        assert(key.subrange(0, from + 1) =~= key.subrange(0, from).push(key[from]));
        assert(prefix.subrange(0, from + 1) =~= prefix.subrange(0, from).push(prefix[from]));
        lemma_first_mismatch(key, prefix, from + 1)
    }
}

/// A scan of a prefix reads exactly the keys that begin with the prefix.
pub proof fn law_scan_range_is_prefix(key: Seq<u8>, prefix: Seq<u8>)
    ensures
        in_scan_range(key, prefix) <==> has_prefix(key, prefix),
{
    let raised = lemma_upper_bound_shape(prefix);
    if has_prefix(key, prefix) {
        assert(!lex_less(key, prefix)) by {
            if lex_less(key, prefix) {
                if exists|k: int| differs_at(key, prefix, k) {
                    let k = choose|k: int| differs_at(key, prefix, k);
                    assert(key.subrange(0, prefix.len() as int)[k] == key[k]);
                }
            }
        }
        if spec_upper_bound(prefix) is Some {
            let stop = spec_upper_bound(prefix)->0;
            assert(key.subrange(0, raised) =~= prefix.subrange(0, raised)) by {
                assert forall|i: int| 0 <= i < raised implies key[i] == prefix[i] by {
                    assert(key.subrange(0, prefix.len() as int)[i] == key[i]);
                }
            }
            assert(stop.subrange(0, raised) =~= prefix.subrange(0, raised));
            assert(key.subrange(0, prefix.len() as int)[raised] == key[raised]);
            assert(differs_at(key, stop, raised));
        }
    } else if in_scan_range(key, prefix) {
        assert(key.subrange(0, 0) =~= prefix.subrange(0, 0));
        let at = lemma_first_mismatch(key, prefix, 0);
        if at == key.len() {
            assert(key =~= key.subrange(0, at));
            assert(key == prefix.subrange(0, key.len() as int));
            assert(lex_less(key, prefix));
        } else {
            if key[at] < prefix[at] {
                assert(differs_at(key, prefix, at));
                assert(lex_less(key, prefix));
            }
            assert(key[at] > prefix[at]);
            assert(prefix[at] != 0xff);
            assert(at <= raised);
            let stop = spec_upper_bound(prefix)->0;
            assert(stop.len() == raised + 1);
            assert forall|i: int| 0 <= i < raised implies stop[i] == prefix[i] by {
                assert(stop[i] == prefix.subrange(0, raised)[i]);
            }
            assert(stop[raised] == prefix[raised] + 1);
            if exists|k: int| differs_at(key, stop, k) {
                let k = choose|k: int| differs_at(key, stop, k);
                if k < at {
                    assert(key.subrange(0, at)[k] == prefix.subrange(0, at)[k]);
                } else if k > at {
                    assert(key.subrange(0, k)[at] == stop.subrange(0, k)[at]);
                }
                assert(false);
            } else {
                assert(key == stop.subrange(0, key.len() as int));
                assert(key[at] == stop.subrange(0, key.len() as int)[at]);
                assert(false);
            }
        }
    }
}

} // verus!
