use vstd::prelude::*;

verus! {

/// Denominator of dropout probabilities: they are given in parts per
/// million, so a probability lies in `[0, PPM_SCALE)`.
pub const PPM_SCALE: u64 = 1000000;

/// Relies on `rand::rng` and `Rng::random`: one draw from the
/// thread-local generator. Nothing is promised of the value.
#[verifier::external_body]
fn draw_random_u64() -> u64 {
    rand::Rng::random::<u64>(&mut rand::rng())
}

/// The elements of `s` kept by the boolean mask `m`, in order.
pub open spec fn mask_filter<T>(s: Seq<T>, m: Seq<bool>) -> Seq<T>
    decreases s.len(),
{
    if s.len() == 0 {
        Seq::empty()
    } else if m[0] {
        seq![s[0]] + mask_filter(s.drop_first(), m.drop_first())
    } else {
        mask_filter(s.drop_first(), m.drop_first())
    }
}

/// Extending both the sequence and the mask by one element extends the
/// filtered result by that element exactly when the mask keeps it.
pub proof fn lemma_mask_filter_push<T>(s: Seq<T>, m: Seq<bool>, x: T, b: bool)
    requires
        s.len() == m.len(),
    ensures
        mask_filter(s.push(x), m.push(b)) == if b {
            mask_filter(s, m).push(x)
        } else {
            mask_filter(s, m)
        },
    decreases s.len(),
{
    if s.len() == 0 {
        reveal_with_fuel(mask_filter, 2);
        assert(s.push(x)[0] == x);
        assert(m.push(b)[0] == b);
        assert(s.push(x).drop_first() =~= Seq::<T>::empty());
        assert(m.push(b).drop_first() =~= Seq::<bool>::empty());
        assert(mask_filter(Seq::<T>::empty(), Seq::<bool>::empty()) == Seq::<T>::empty());
        if b {
            assert(mask_filter(s.push(x), m.push(b)) =~= mask_filter(s, m).push(x));
        } else {
            assert(mask_filter(s.push(x), m.push(b)) =~= mask_filter(s, m));
        }
    } else {
        assert(s.push(x).drop_first() =~= s.drop_first().push(x));
        assert(m.push(b).drop_first() =~= m.drop_first().push(b));
        assert(s.push(x)[0] == s[0]);
        assert(m.push(b)[0] == m[0]);
        lemma_mask_filter_push(s.drop_first(), m.drop_first(), x, b);
        if m[0] {
            if b {
                assert((seq![s[0]] + mask_filter(s.drop_first(), m.drop_first()).push(x)) =~= (
                seq![s[0]] + mask_filter(s.drop_first(), m.drop_first())).push(x));
            }
        }
    }
}

/// Whatever the mask, the filtered result is no longer than the input
/// and holds only elements of it.
pub proof fn lemma_mask_filter_sub<T>(s: Seq<T>, m: Seq<bool>)
    ensures
        mask_filter(s, m).len() <= s.len(),
        forall|k: int|
            0 <= k < mask_filter(s, m).len() ==> s.contains(#[trigger] mask_filter(s, m)[k]),
    decreases s.len(),
{
    if s.len() > 0 {
        lemma_mask_filter_sub(s.drop_first(), m.drop_first());
        let rest = mask_filter(s.drop_first(), m.drop_first());
        assert forall|k: int|
            0 <= k < mask_filter(s, m).len() implies s.contains(#[trigger] mask_filter(s, m)[k]) by {
            if m[0] && k == 0 {
                assert(mask_filter(s, m)[0] == s[0]);
                assert(s[0] == s[0]);
            } else {
                let y = if m[0] {
                    rest[k - 1]
                } else {
                    rest[k]
                };
                assert(mask_filter(s, m)[k] == y);
                assert(s.drop_first().contains(y));
                let w = choose|w: int| 0 <= w < s.drop_first().len() && s.drop_first()[w] == y;
                assert(s[w + 1] == y);
            }
        }
    }
}

/// Sampling never introduces duplicates: a mask-filter of a list of
/// pairwise distinct strings is pairwise distinct too.
pub proof fn lemma_mask_filter_distinct(s: Seq<String>, m: Seq<bool>)
    requires
        forall|i: int, j: int| 0 <= i < j < s.len() ==> s[i]@ != s[j]@,
    ensures
        forall|i: int, j: int|
            0 <= i < j < mask_filter(s, m).len() ==> (#[trigger] mask_filter(s, m)[i])@ != (
            #[trigger] mask_filter(s, m)[j])@,
    decreases s.len(),
{
    let f = mask_filter(s, m);
    if s.len() > 0 {
        let rest = mask_filter(s.drop_first(), m.drop_first());
        assert forall|i: int, j: int|
            0 <= i < j < s.drop_first().len() implies s.drop_first()[i]@ != s.drop_first()[j]@ by {
            assert(s.drop_first()[i] == s[i + 1]);
            assert(s.drop_first()[j] == s[j + 1]);
        }
        lemma_mask_filter_distinct(s.drop_first(), m.drop_first());
        lemma_mask_filter_sub(s.drop_first(), m.drop_first());
        assert forall|i: int, j: int| 0 <= i < j < f.len() implies (#[trigger] f[i])@ != (
        #[trigger] f[j])@ by {
            if m[0] {
                if i == 0 {
                    let y = rest[j - 1];
                    assert(f[j] == y);
                    assert(s.drop_first().contains(y));
                    let w = choose|w: int|
                        0 <= w < s.drop_first().len() && s.drop_first()[w] == y;
                    assert(s[w + 1] == y);
                    assert(s[0]@ != s[w + 1]@);
                } else {
                    assert(f[i] == rest[i - 1] && f[j] == rest[j - 1]);
                }
            } else {
                assert(f[i] == rest[i] && f[j] == rest[j]);
            }
        }
    }
}

/// Sub-sample a candidate list: each candidate is independently kept
/// with probability `1 - dropout_ppm / PPM_SCALE`. Returns the kept
/// candidates, in their original order, and how many there are. A
/// dropout of zero keeps everything.
pub fn sample(candidates: &Vec<String>, dropout_ppm: u64) -> (r: (Vec<String>, usize))
    requires
        dropout_ppm < PPM_SCALE,
    ensures
        r.1 == r.0@.len(),
        exists|m: Seq<bool>|
            m.len() == candidates@.len() && r.0@ == mask_filter(candidates@, m),
        r.0@.len() <= candidates@.len(),
        forall|k: int| 0 <= k < r.0@.len() ==> candidates@.contains(#[trigger] r.0@[k]),
        dropout_ppm == 0 ==> r.0@ == candidates@,
{
    let mut kept: Vec<String> = Vec::new();
    let ghost mut mask: Seq<bool> = Seq::empty();
    let mut i: usize = 0;
    while i < candidates.len()
        invariant
            dropout_ppm < PPM_SCALE,
            i <= candidates.len(),
            mask.len() == i,
            kept@ == mask_filter(candidates@.take(i as int), mask),
            dropout_ppm == 0 ==> kept@ == candidates@.take(i as int),
            kept@.len() <= i,
        decreases candidates.len() - i,
    {
        let draw = draw_random_u64();
        let keep = draw % PPM_SCALE >= dropout_ppm;
        proof {
            assert(candidates@.take(i + 1) =~= candidates@.take(i as int).push(
                candidates@[i as int],
            ));
            lemma_mask_filter_push(candidates@.take(i as int), mask, candidates@[i as int], keep);
        }
        if keep {
            kept.push(candidates[i].clone());
        }
        proof {
            mask = mask.push(keep);
        }
        i += 1;
    }
    proof {
        assert(candidates@.take(candidates@.len() as int) =~= candidates@);
        assert(mask.len() == candidates@.len() && kept@ == mask_filter(candidates@, mask));
        lemma_mask_filter_sub(candidates@, mask);
    }
    let count = kept.len();
    (kept, count)
}

} // verus!
