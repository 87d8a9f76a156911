use wubrag::chunking::chunk_document;
use wubrag::document::make_document;
use wubrag::indexing::{rank_top_k, Index};

/// Order-preserving encoding of a (non-NaN) float into a sortable key, the
/// same encoding the embedding-side caller uses before ranking.
fn score_key(f: f32) -> u64 {
    let bits = f.to_bits();
    let key = if bits & 0x8000_0000 != 0 {
        !bits
    } else {
        bits | 0x8000_0000
    };
    key as u64
}

fn cosine(a: &[f32], b: &[f32]) -> f32 {
    let mut dot = 0.0;
    let mut na = 0.0;
    let mut nb = 0.0;
    for i in 0..a.len() {
        dot += a[i] * b[i];
        na += a[i] * a[i];
        nb += b[i] * b[i];
    }
    if na == 0.0 || nb == 0.0 {
        return 0.0;
    }
    dot / (na.sqrt() * nb.sqrt())
}

#[test]
fn search_ranks_by_cosine_similarity() {
    let embeddings: Vec<Vec<f32>> = vec![vec![1.0, 0.0], vec![0.0, 1.0], vec![1.0, 1.0]];
    let query = vec![1.0, 0.0];
    let sims: Vec<f32> = embeddings.iter().map(|e| cosine(&query, e)).collect();
    assert_eq!(sims[0], 1.0);
    assert_eq!(sims[1], 0.0);
    assert!((sims[2] - 0.7071).abs() < 1e-3);
    let scores: Vec<u64> = sims.iter().map(|&s| score_key(s)).collect();
    let top = rank_top_k(&scores, 2);
    assert_eq!(top.len(), 2);
    assert_eq!(top[0].0, 0);
    assert_eq!(top[1].0, 2);
}

#[test]
fn search_returns_at_most_k_sorted_entries() {
    let scores: Vec<u64> = vec![5, 9, 1, 9, 3];
    let top = rank_top_k(&scores, 3);
    assert_eq!(top.len(), 3);
    assert_eq!(top[0], (1, 9));
    assert_eq!(top[1], (3, 9)); // tie broken by original position
    assert_eq!(top[2], (0, 5));
    for w in top.windows(2) {
        assert!(w[0].1 >= w[1].1);
    }
}

#[test]
fn oversized_k_returns_every_entry_exactly_once() {
    let scores: Vec<u64> = vec![2, 2, 2, 7];
    let top = rank_top_k(&scores, 10);
    assert_eq!(top.len(), 4);
    let mut seen: Vec<usize> = top.iter().map(|p| p.0).collect();
    seen.sort();
    assert_eq!(seen, vec![0, 1, 2, 3]);
    assert_eq!(top[0], (3, 7));
    assert_eq!(top[1], (0, 2));
    assert_eq!(top[2], (1, 2));
    assert_eq!(top[3], (2, 2));
}

#[test]
fn zero_k_returns_nothing() {
    let scores: Vec<u64> = vec![4, 8];
    assert_eq!(rank_top_k(&scores, 0).len(), 0);
    assert_eq!(rank_top_k(&Vec::new(), 5).len(), 0);
}

#[test]
fn index_retrieves_chunks_by_position_and_id() {
    let d = make_document("a.txt", "alpha\n\nbeta".to_string(), 11);
    let chunks = chunk_document(&d);
    assert_eq!(chunks.len(), 2);
    let id0 = chunks[0].id;
    let id1 = chunks[1].id;
    let index = Index::new(chunks);
    assert_eq!(index.retrieve(0).text, "alpha");
    assert_eq!(index.retrieve(1).text, "beta");
    assert_eq!(index.lookup(&id0), Some(0));
    assert_eq!(index.lookup(&id1), Some(1));
    assert_eq!(index.lookup(&[0u8; 32]), None);
    let scores: Vec<u64> = vec![1, 2];
    let top = index.search(&scores, 1);
    assert_eq!(top, vec![(1, 2)]);
    assert_eq!(index.retrieve(top[0].0).text, "beta");
}
