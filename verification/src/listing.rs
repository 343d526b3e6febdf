//! Pure part of the bucket-listing endpoint: collecting the keys that are
//! present, in order.

use vstd::prelude::*;

verus! {

/// The subsequence of keys that are present, in order.
pub open spec fn keys_of(s: Seq<Option<String>>) -> Seq<Seq<char>>
    decreases s.len(),
{
    if s.len() == 0 {
        Seq::empty()
    } else {
        keys_of(s.drop_last()) + (match s.last() {
            Some(k) => seq![k@],
            None => Seq::empty(),
        })
    }
}

/// Keeps the present keys, dropping the absent entries.
pub fn collect_keys(keys: Vec<Option<String>>) -> (r: Vec<String>)
    ensures
        r.deep_view() == keys_of(keys@),
{
    let n = keys.len();
    let mut r: Vec<String> = Vec::new();
    for i in 0..n
        invariant
            n == keys@.len(),
            r.deep_view() == keys_of(keys@.take(i as int)),
    {
        proof {
            assert(keys@.take(i + 1).drop_last() =~= keys@.take(i as int));
            assert(keys@.take(i + 1).last() == keys@[i as int]);
        }
        match &keys[i] {
            Some(k) => {
                r.push(k.clone());
                proof {
                    assert(r.deep_view() =~= keys_of(keys@.take(i + 1)));
                }
            },
            None => {
                proof {
                    assert(r.deep_view() =~= keys_of(keys@.take(i + 1)));
                }
            },
        }
    }
    proof {
        assert(keys@.take(n as int) =~= keys@);
    }
    r
}

} // verus!
