use captcha_keyspace::sampler::sample;

fn numbered_candidates(n: usize) -> Vec<String> {
    let mut v: Vec<String> = Vec::new();
    for i in 0..n {
        v.push(format!("key{}", i));
    }
    v
}

#[test]
fn sample_dropout_zero_keeps_everything() {
    let candidates = numbered_candidates(50);
    let (kept, count) = sample(&candidates, 0);
    assert_eq!(kept, candidates);
    assert_eq!(count, 50);
}

#[test]
fn sample_count_matches_kept() {
    let candidates = numbered_candidates(200);
    let (kept, count) = sample(&candidates, 500_000);
    assert_eq!(count, kept.len());
    assert!(kept.len() <= candidates.len());
    for key in &kept {
        assert!(candidates.contains(key));
    }
}

#[test]
fn sample_keeps_original_order() {
    let candidates = numbered_candidates(300);
    let (kept, _) = sample(&candidates, 500_000);
    let mut positions: Vec<usize> = Vec::new();
    for key in &kept {
        positions.push(candidates.iter().position(|c| c == key).unwrap());
    }
    let mut sorted = positions.clone();
    sorted.sort();
    assert_eq!(positions, sorted);
}

#[test]
fn sample_dropout_near_one_drops_nearly_all() {
    // Statistical: with dropout 0.999999, the expected kept count over
    // 3000 candidates is about 0.003; seeing more than 100 kept is
    // vanishingly unlikely.
    let candidates = numbered_candidates(3000);
    let (kept, count) = sample(&candidates, 999_999);
    assert_eq!(count, kept.len());
    assert!(count <= 100, "kept {} of 3000 at dropout ~1", count);
}
