use cocos_engine::memop::{CachedArray, Pool, RecyclePool};

#[test]
fn test_pool_alloc_free() {
    let mut pool = Pool::new(|| 0u32, 4);
    assert_eq!(pool.available_count(), 4);
    let v = pool.allocate(|| 0u32);
    assert_eq!(pool.available_count(), 3);
    pool.free(v);
    assert_eq!(pool.available_count(), 4);
}

#[test]
fn test_pool_auto_expand() {
    let mut pool = Pool::new(|| 0u32, 2);
    pool.allocate(|| 0u32);
    pool.allocate(|| 0u32);
    assert_eq!(pool.available_count(), 0);
    let v = pool.allocate(|| 0u32);
    assert_eq!(v, 0u32);
    assert_eq!(pool.available_count(), 1);
}

#[test]
fn test_pool_free_array() {
    let mut pool = Pool::new(|| 0u32, 2);
    pool.free_array(vec![1u32, 2, 3]);
    assert_eq!(pool.available_count(), 5);
}

#[test]
fn test_recycle_pool_add_reset() {
    let mut pool = RecyclePool::new(|| 0u32, 4);
    assert_eq!(pool.get_length(), 0);
    pool.add(|| 0u32);
    pool.add(|| 0u32);
    assert_eq!(pool.get_length(), 2);
    pool.reset();
    assert_eq!(pool.get_length(), 0);
}

#[test]
fn test_recycle_pool_remove_at() {
    let mut pool = RecyclePool::new(|| 0u32, 4);
    pool.add(|| 1u32);
    pool.add(|| 2u32);
    pool.add(|| 3u32);
    pool.remove_at(1);
    assert_eq!(pool.get_length(), 2);
}

#[test]
fn test_cached_array_push_pop() {
    let mut arr: CachedArray<u32> = CachedArray::new(4);
    arr.push(1);
    arr.push(2);
    arr.push(3);
    assert_eq!(arr.len(), 3);
    assert_eq!(arr.pop(), Some(3));
    assert_eq!(arr.len(), 2);
}

#[test]
fn test_cached_array_fast_remove() {
    let mut arr: CachedArray<u32> = CachedArray::new(4);
    arr.push(10);
    arr.push(20);
    arr.push(30);
    arr.fast_remove(0);
    assert_eq!(arr.len(), 2);
    assert_eq!(arr[0], 30);
}

#[test]
fn test_cached_array_index_of() {
    let mut arr: CachedArray<u32> = CachedArray::new(4);
    arr.push(10);
    arr.push(20);
    arr.push(30);
    assert_eq!(arr.index_of(&20), Some(1));
    assert_eq!(arr.index_of(&99), None);
}

#[test]
fn test_cached_array_concat() {
    let mut a: CachedArray<u32> = CachedArray::new(2);
    let mut b: CachedArray<u32> = CachedArray::new(2);
    a.push(1);
    a.push(2);
    b.push(3);
    b.push(4);
    a.concat(&b);
    assert_eq!(a.len(), 4);
    assert_eq!(a[3], 4);
}

#[test]
fn test_cached_array_clear() {
    let mut arr: CachedArray<u32> = CachedArray::new(4);
    arr.push(1);
    arr.push(2);
    arr.clear();
    assert!(arr.is_empty());
}

#[test]
fn memop_pool_zero_batch_is_one() {
    let mut pool = Pool::new(|| 7u8, 0);
    assert_eq!(pool.available_count(), 1);
    assert_eq!(pool.allocate(|| 9u8), 7);
    assert_eq!(pool.allocate(|| 9u8), 9);
    assert_eq!(pool.available_count(), 0);
    pool.free(5);
    pool.destroy();
    assert_eq!(pool.available_count(), 0);
}

#[test]
fn memop_recycle_pool_grows_and_swaps() {
    let mut pool = RecyclePool::new(|| 0u32, 0);
    pool.add(|| 1u32);
    assert_eq!(pool.get_data(), &[1u32][..]);
    pool.add(|| 2u32);
    pool.add(|| 3u32);
    assert_eq!(pool.get_length(), 3);
    assert_eq!(pool.get_data(), &[1u32, 2, 3][..]);
    pool.remove_at(0);
    assert_eq!(pool.get_data(), &[3u32, 2][..]);
    assert_eq!(pool.get(5), None);
    *pool.get_mut(1).unwrap() = 8;
    assert_eq!(pool.get(1), Some(&8));
    pool.resize(1, || 0u32);
    assert_eq!(pool.get_length(), 1);
}

#[test]
fn memop_cached_array_grows_and_reserves() {
    let mut arr: CachedArray<u32> = CachedArray::new(0);
    arr.push(5);
    arr.push(6);
    arr.push(7);
    assert_eq!(arr.len(), 3);
    assert_eq!(arr.get(2), Some(&7));
    assert_eq!(arr.get(3), None);
    arr.reserve(16);
    assert_eq!(arr.len(), 3);
    *arr.get_mut(0).unwrap() = 50;
    assert_eq!(arr[0], 50);
    arr.fast_remove(9);
    assert_eq!(arr.len(), 3);
    assert_eq!(arr.pop(), Some(7));
    assert_eq!(arr.pop(), Some(6));
    assert_eq!(arr.pop(), Some(50));
    assert_eq!(arr.pop(), None);
}

#[test]
fn test_cached_array_concat_grows_by_doubling() {
    let mut a: CachedArray<u32> = CachedArray::new(1);
    a.push(1);
    let mut b: CachedArray<u32> = CachedArray::new(2);
    b.push(2);
    b.push(3);
    b.push(4);
    a.concat(&b);
    assert_eq!(a.len(), 4);
    assert_eq!(a.get(0), Some(&1));
    assert_eq!(a.get(3), Some(&4));
}
