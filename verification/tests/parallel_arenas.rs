use cf::parallel_arenas::{collect_parallel_result, merge_into_main_arena, ArenaPool};
use oxc_allocator::Allocator;

#[test]
fn test_arena_pool_creates_allocator() {
    let pool = ArenaPool::new();
    let result = pool.with_arena(|arena| std::mem::size_of_val(arena) > 0);
    assert!(result);
}

#[test]
fn default_pool_hands_back_the_closure_result() {
    let pool = ArenaPool::default();
    assert_eq!(pool.with_arena(|_arena| 41 + 1), 42);
}

#[test]
fn parallel_result_keeps_the_first_result() {
    let results = vec![2, 4, 6, 8];
    let r = collect_parallel_result(results, 3, 4);
    assert_eq!(r.main_arena_result, 2);
    assert_eq!(r.worker_count, 3);
    assert_eq!(r.items_processed, 4);
}

#[test]
fn merge_hands_back_results_in_order() {
    let main = Allocator::default();
    assert_eq!(merge_into_main_arena(vec!["a", "b", "c"], &main), vec!["a", "b", "c"]);
}

#[test]
fn batches_share_the_pool_allocator() {
    let pool = ArenaPool::new();
    let first = pool.with_arena(|arena| {
        arena.alloc_str("a string kept in the pooled arena");
        arena.used_bytes()
    });
    assert!(first > 0);
    let second = pool.with_arena(|arena| arena.used_bytes());
    assert_eq!(second, first);
}
