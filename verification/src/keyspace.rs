use vstd::prelude::*;
use vstd::arithmetic::div_mod::{
    lemma_fundamental_div_mod, lemma_fundamental_div_mod_converse, lemma_mod_bound,
    lemma_multiply_divide_lt,
};
use vstd::arithmetic::mul::lemma_mul_is_commutative;

verus! {

/// A well-formed alphabet: non-empty, no duplicate characters.
pub open spec fn alphabet_wf(a: Seq<char>) -> bool {
    &&& a.len() > 0
    &&& forall|i: int, j: int|
        0 <= i < a.len() && 0 <= j < a.len() && i != j ==> a[i] != a[j]
}

/// Size of the full keyspace: the number of strings of length `l` over
/// an alphabet of `n` characters, that is `n^l`.
pub open spec fn keyspace_size(n: nat, l: nat) -> nat
    decreases l,
{
    if l == 0 {
        1
    } else {
        keyspace_size(n, (l - 1) as nat) * n
    }
}

/// The key standing at position `i` of the enumeration: the digits of
/// `i` written in base `a.len()`, each digit replaced by the alphabet
/// character it indexes, the first character varying slowest.
pub open spec fn key_of_index(a: Seq<char>, l: nat, i: nat) -> Seq<char>
    decreases l,
{
    if l == 0 {
        Seq::empty()
    } else {
        key_of_index(a, (l - 1) as nat, i / a.len()).push(a[(i % a.len()) as int])
    }
}

pub proof fn lemma_key_of_index_len(a: Seq<char>, l: nat, i: nat)
    requires
        a.len() > 0,
    ensures
        key_of_index(a, l, i).len() == l,
    decreases l,
{
    if l > 0 {
        lemma_key_of_index_len(a, (l - 1) as nat, i / a.len());
    }
}

/// Every character of an enumerated key is drawn from the alphabet.
pub proof fn lemma_key_of_index_chars(a: Seq<char>, l: nat, i: nat)
    requires
        a.len() > 0,
    ensures
        forall|p: int|
            0 <= p < key_of_index(a, l, i).len() ==> a.contains(#[trigger] key_of_index(a, l, i)[p]),
    decreases l,
{
    if l > 0 {
        let n = a.len();
        let prefix = key_of_index(a, (l - 1) as nat, i / n);
        let last = a[(i % n) as int];
        lemma_key_of_index_chars(a, (l - 1) as nat, i / n);
        lemma_mod_bound(i as int, n as int);
        assert(a.contains(last)) by {
            assert(a[(i % n) as int] == last);
        }
        assert forall|p: int|
            0 <= p < key_of_index(a, l, i).len() implies a.contains(
            #[trigger] key_of_index(a, l, i)[p],
        ) by {
            if p < prefix.len() {
                assert(key_of_index(a, l, i)[p] == prefix[p]);
            } else {
                assert(key_of_index(a, l, i)[p] == last);
            }
        }
    }
}

/// Distinct positions of the enumeration hold distinct keys.
pub proof fn lemma_key_of_index_injective(a: Seq<char>, l: nat, i: nat, j: nat)
    requires
        alphabet_wf(a),
        i < keyspace_size(a.len(), l),
        j < keyspace_size(a.len(), l),
        key_of_index(a, l, i) == key_of_index(a, l, j),
    ensures
        i == j,
    decreases l,
{
    let n = a.len();
    if l == 0 {
        assert(keyspace_size(n, 0) == 1);
    } else {
        let pi = key_of_index(a, (l - 1) as nat, i / n);
        let pj = key_of_index(a, (l - 1) as nat, j / n);
        let ci = a[(i % n) as int];
        let cj = a[(j % n) as int];
        lemma_key_of_index_len(a, (l - 1) as nat, i / n);
        lemma_key_of_index_len(a, (l - 1) as nat, j / n);
        assert(pi.push(ci)[pi.len() as int] == ci);
        assert(pj.push(cj)[pj.len() as int] == cj);
        assert(ci == cj);
        lemma_mod_bound(i as int, n as int);
        lemma_mod_bound(j as int, n as int);
        assert(i % n == j % n) by {
            if i % n != j % n {
                assert(a[(i % n) as int] != a[(j % n) as int]);
            }
        }
        assert forall|p: int| 0 <= p < pi.len() implies pi[p] == pj[p] by {
            assert(pi[p] == pi.push(ci)[p]);
            assert(pj[p] == pj.push(cj)[p]);
        }
        assert(pi =~= pj);
        assert(keyspace_size(n, l) == keyspace_size(n, (l - 1) as nat) * n);
        assert(i / n < keyspace_size(n, (l - 1) as nat)) by {
            lemma_mul_is_commutative(keyspace_size(n, (l - 1) as nat) as int, n as int);
            lemma_multiply_divide_lt(i as int, n as int, keyspace_size(n, (l - 1) as nat) as int);
        }
        assert(j / n < keyspace_size(n, (l - 1) as nat)) by {
            lemma_mul_is_commutative(keyspace_size(n, (l - 1) as nat) as int, n as int);
            lemma_multiply_divide_lt(j as int, n as int, keyspace_size(n, (l - 1) as nat) as int);
        }
        lemma_key_of_index_injective(a, (l - 1) as nat, i / n, j / n);
        lemma_fundamental_div_mod(i as int, n as int);
        lemma_fundamental_div_mod(j as int, n as int);
    }
}

/// With length zero the keyspace holds exactly one key, the empty one:
/// `enumerate` then returns a single empty string.
pub proof fn lemma_zero_length_keyspace(a: Seq<char>)
    ensures
        keyspace_size(a.len(), 0) == 1,
        key_of_index(a, 0, 0) == Seq::<char>::empty(),
{
}

/// Enumerate the whole keyspace: every string of exactly `length`
/// characters over `alphabet`, in order (first character varying
/// slowest), with no duplicates; exactly `alphabet.len() ^ length`
/// keys come out.
pub fn enumerate(alphabet: &Vec<char>, length: usize) -> (r: Vec<String>)
    requires
        alphabet_wf(alphabet@),
    ensures
        r@.len() == keyspace_size(alphabet@.len(), length as nat),
        forall|i: int|
            0 <= i < r@.len() ==> #[trigger] r@[i]@ == key_of_index(
                alphabet@,
                length as nat,
                i as nat,
            ),
        forall|i: int| 0 <= i < r@.len() ==> (#[trigger] r@[i]@).len() == length,
        forall|i: int, p: int|
            0 <= i < r@.len() && 0 <= p < length ==> alphabet@.contains(#[trigger] r@[i]@[p]),
        forall|i: int, j: int|
            0 <= i < r@.len() && 0 <= j < r@.len() && i != j ==> r@[i]@ != r@[j]@,
{
    let ghost a = alphabet@;
    let n = alphabet.len();
    let mut keys: Vec<String> = Vec::new();
    keys.push(String::new());
    assert(keys@[0]@ == key_of_index(a, 0, 0));
    let mut round: usize = 0;
    while round < length
        invariant
            alphabet_wf(a),
            a == alphabet@,
            n == alphabet.len(),
            round <= length,
            keys@.len() == keyspace_size(a.len(), round as nat),
            forall|i: int|
                0 <= i < keys@.len() ==> #[trigger] keys@[i]@ == key_of_index(
                    a,
                    round as nat,
                    i as nat,
                ),
        decreases length - round,
    {
        let mut next: Vec<String> = Vec::new();
        let mut i: usize = 0;
        while i < keys.len()
            invariant
                alphabet_wf(a),
                a == alphabet@,
                n == alphabet.len(),
                i <= keys.len(),
                keys@.len() == keyspace_size(a.len(), round as nat),
                forall|t: int|
                    0 <= t < keys@.len() ==> #[trigger] keys@[t]@ == key_of_index(
                        a,
                        round as nat,
                        t as nat,
                    ),
                next@.len() == i as int * a.len(),
                forall|t: int|
                    0 <= t < next@.len() ==> #[trigger] next@[t]@ == key_of_index(
                        a,
                        (round + 1) as nat,
                        t as nat,
                    ),
            decreases keys.len() - i,
        {
            let mut j: usize = 0;
            while j < n
                invariant
                    alphabet_wf(a),
                    a == alphabet@,
                    n == alphabet.len(),
                    i < keys.len(),
                    j <= n,
                    keys@.len() == keyspace_size(a.len(), round as nat),
                    forall|t: int|
                        0 <= t < keys@.len() ==> #[trigger] keys@[t]@ == key_of_index(
                            a,
                            round as nat,
                            t as nat,
                        ),
                    next@.len() == i as int * a.len() + j,
                    forall|t: int|
                        0 <= t < next@.len() ==> #[trigger] next@[t]@ == key_of_index(
                            a,
                            (round + 1) as nat,
                            t as nat,
                        ),
                decreases n - j,
            {
                let mut nk = keys[i].clone();
                crate::strutil::push_char(&mut nk, alphabet[j]);
                proof {
                    let t = i as int * a.len() + j;
                    lemma_fundamental_div_mod_converse(t, a.len() as int, i as int, j as int);
                    assert(nk@ == key_of_index(a, (round + 1) as nat, t as nat));
                }
                next.push(nk);
                j += 1;
            }
            proof {
                assert((i + 1) as int * a.len() == i as int * a.len() + a.len())
                    by (nonlinear_arith);
            }
            i += 1;
        }
        proof {
            assert(keyspace_size(a.len(), (round + 1) as nat) == keyspace_size(
                a.len(),
                round as nat,
            ) * a.len());
        }
        keys = next;
        round += 1;
    }
    proof {
        assert forall|i: int| 0 <= i < keys@.len() implies (#[trigger] keys@[i]@).len()
            == length by {
            lemma_key_of_index_len(a, length as nat, i as nat);
        }
        assert forall|i: int, p: int|
            0 <= i < keys@.len() && 0 <= p < length implies alphabet@.contains(
            #[trigger] keys@[i]@[p],
        ) by {
            lemma_key_of_index_chars(a, length as nat, i as nat);
            lemma_key_of_index_len(a, length as nat, i as nat);
        }
        assert forall|i: int, j: int|
            0 <= i < keys@.len() && 0 <= j < keys@.len() && i != j implies keys@[i]@
            != keys@[j]@ by {
            if keys@[i]@ == keys@[j]@ {
                lemma_key_of_index_injective(a, length as nat, i as nat, j as nat);
            }
        }
    }
    keys
}

} // verus!
