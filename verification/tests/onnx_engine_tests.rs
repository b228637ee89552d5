use doc_orchestrator::onnx_engine::{KeywordBuckets, OnnxEngine, WordOverlap};

/// Bucket weights of a text, scaled by two so that they stay integers.
fn weights(engine: &OnnxEngine, text: &str) -> Vec<u128> {
    let KeywordBuckets { primary, secondary } = engine.keyword_buckets(text);
    primary.iter().zip(secondary.iter()).map(|(p, s)| 2 * (*p as u128) + *s as u128).collect()
}

fn dot(a: &[u128], b: &[u128]) -> u128 {
    a.iter().zip(b.iter()).map(|(x, y)| x * y).sum()
}

#[test]
fn test_text_similarity() {
    let a = "hello world programming";
    let b = "hello universe programming";
    let c = "completely different topic";

    let ab = OnnxEngine::text_overlap(a, b).unwrap();
    let ac = OnnxEngine::text_overlap(a, c).unwrap();
    let union_ab = (ab.first + ab.second - ab.shared) as u64;
    let union_ac = (ac.first + ac.second - ac.shared) as u64;

    assert!(ab.shared > 0, "Similar texts should have positive similarity");
    assert!(
        (ac.shared as u64) * union_ab < (ab.shared as u64) * union_ac,
        "Different texts should have lower similarity"
    );
}

#[test]
fn test_embedding_generation() {
    let engine = OnnxEngine::new().unwrap();
    let w = weights(&engine, "hello world programming");

    assert_eq!(w.len(), 384);
    // Three words, each counted once in each bucket list: weight 2 + 1 per word.
    assert_eq!(w.iter().sum::<u128>(), 9);
}

#[test]
fn test_find_similar() {
    let engine = OnnxEngine::new().unwrap();
    let query = weights(&engine, "rust programming language");
    let doc1 = weights(&engine, "rust systems programming");
    let doc2 = weights(&engine, "cooking recipes for dinner");

    let dot1 = dot(&query, &doc1);
    let dot2 = dot(&query, &doc2);
    let norm1 = dot(&doc1, &doc1);
    let norm2 = dot(&doc2, &doc2);

    // cos(query, doc1) > cos(query, doc2), compared without division.
    assert!(dot1 > 0);
    assert!(dot1 * dot1 * norm2 > dot2 * dot2 * norm1, "Programming docs should be more similar");
}

#[test]
fn overlap_counts_distinct_words() {
    let o = OnnxEngine::text_overlap("hello world programming", "hello universe programming").unwrap();
    assert_eq!(o, WordOverlap { first: 3, second: 3, shared: 2 });
    let o = OnnxEngine::text_overlap("Rust rust RUST go", "rust").unwrap();
    assert_eq!(o, WordOverlap { first: 1, second: 1, shared: 1 });
}

#[test]
fn overlap_is_none_without_words() {
    assert_eq!(OnnxEngine::text_overlap("a bb", "hello world"), None);
    assert_eq!(OnnxEngine::text_overlap("hello world", ""), None);
}

#[test]
fn overlap_is_symmetric() {
    let a = "the quick brown fox jumps";
    let b = "the lazy brown dog sleeps";
    let ab = OnnxEngine::text_overlap(a, b).unwrap();
    let ba = OnnxEngine::text_overlap(b, a).unwrap();
    assert_eq!(ab.first, ba.second);
    assert_eq!(ab.second, ba.first);
    assert_eq!(ab.shared, ba.shared);
    assert_eq!(ab.shared, 2);
}

#[test]
fn simple_hash_is_fnv1a() {
    assert_eq!(OnnxEngine::simple_hash(""), 0xcbf29ce484222325);
    assert_eq!(OnnxEngine::simple_hash("a"), 0xaf63dc4c8601ec8c);
    assert_eq!(OnnxEngine::simple_hash("foobar"), 0x85944171f73967e8);
}

#[test]
fn keyword_buckets_count_each_word_twice() {
    let engine = OnnxEngine::new().unwrap();
    let b = engine.keyword_buckets("Hello, hello; hi");
    let h = OnnxEngine::simple_hash("hello");
    let k1 = (h as usize) % 384;
    let k2 = ((h >> 8) as usize) % 384;
    assert_eq!(b.primary.iter().sum::<u64>(), 2);
    assert_eq!(b.secondary.iter().sum::<u64>(), 2);
    assert_eq!(b.primary[k1], 2);
    assert_eq!(b.secondary[k2], 2);
}

#[test]
fn keyword_buckets_skip_short_words() {
    let engine = OnnxEngine::new().unwrap();
    let b = engine.keyword_buckets("a be it of");
    assert!(b.primary.iter().all(|x| *x == 0));
    assert!(b.secondary.iter().all(|x| *x == 0));
    assert_eq!(b.primary.len(), 384);
}

#[test]
fn keyword_buckets_measure_words_in_bytes() {
    let engine = OnnxEngine::new().unwrap();
    // "éé" is four bytes long, so it counts as a word.
    let b = engine.keyword_buckets("éé");
    assert_eq!(b.primary.iter().sum::<u64>(), 1);
}

#[test]
fn engine_configuration() {
    let e = OnnxEngine::new().unwrap();
    assert!(e.is_ready());
    assert!(e.model_path().is_none());
    let e = OnnxEngine::with_model_path("/models/minilm.onnx".to_string()).unwrap();
    assert!(e.is_ready());
    assert_eq!(e.model_path().map(|s| s.as_str()), Some("/models/minilm.onnx"));
}

#[test]
fn text_words_split_and_lowercase() {
    let ws = doc_orchestrator::onnx_engine::text_words_of("Rust-lang: THE fast, ok?");
    let ws: Vec<String> = ws.into_iter().map(|w| w.into_iter().collect()).collect();
    assert_eq!(ws, vec!["rust", "lang", "the", "fast"]);
}

#[test]
fn overlap_union_counts_all_distinct_words() {
    let o = OnnxEngine::text_overlap("alpha beta gamma", "beta gamma delta epsilon").unwrap();
    assert_eq!(o.first + o.second - o.shared, 5);
    assert!(o.shared <= o.first && o.shared <= o.second);
}
