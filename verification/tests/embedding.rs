use adam::embedding::{token_bucket_counts, DIMENSIONS};

#[test]
fn identical_text_embeds_identically() {
    assert_eq!(token_bucket_counts("the build failed"), token_bucket_counts("the build failed"));
}

#[test]
fn counting_ignores_case_and_spacing() {
    assert_eq!(token_bucket_counts("The  Build\tFAILED"), token_bucket_counts("the build failed"));
}

#[test]
fn every_token_is_counted_once() {
    let counts = token_bucket_counts("rust cargo build failure rust");
    assert_eq!(counts.len(), DIMENSIONS);
    assert_eq!(counts.iter().sum::<usize>(), 5);
    assert!(counts.iter().any(|&c| c >= 2));
}

#[test]
fn empty_text_counts_nothing() {
    let counts = token_bucket_counts("   ");
    assert_eq!(counts, vec![0; DIMENSIONS]);
}

#[test]
fn distinct_tokens_usually_land_in_different_buckets() {
    let counts = token_bucket_counts("alpha beta");
    assert_eq!(counts.iter().sum::<usize>(), 2);
    let single = token_bucket_counts("alpha");
    assert_eq!(single.iter().filter(|&&c| c == 1).count(), 1);
}

fn cosine_similarity(a: &[usize], b: &[usize]) -> f32 {
    let dot: f32 = a.iter().zip(b).map(|(x, y)| (*x as f32) * (*y as f32)).sum();
    let norm = |v: &[usize]| v.iter().map(|x| (*x as f32) * (*x as f32)).sum::<f32>().sqrt();
    let (na, nb) = (norm(a), norm(b));
    if na == 0.0 || nb == 0.0 {
        0.0
    } else {
        dot / (na * nb)
    }
}

#[test]
fn shared_vocabulary_scores_higher_than_disjoint_vocabulary() {
    let a = token_bucket_counts("rust cargo build failure");
    let b = token_bucket_counts("rust cargo build succeeded");
    let c = token_bucket_counts("banana smoothie recipe");

    let sim_related = cosine_similarity(&a, &b);
    let sim_unrelated = cosine_similarity(&a, &c);
    assert!(sim_related > sim_unrelated);
}

#[test]
fn joined_texts_count_as_the_sum_in_either_order() {
    let a = token_bucket_counts("rust cargo");
    let b = token_bucket_counts("build failure");
    let joined = token_bucket_counts("rust cargo build failure");
    let swapped = token_bucket_counts("build failure rust cargo");
    for i in 0..DIMENSIONS {
        assert_eq!(joined[i], a[i] + b[i]);
        assert_eq!(swapped[i], joined[i]);
    }
}
