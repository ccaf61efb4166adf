use cocos_engine::data::{
    deferred_destroy, deferred_destroy_tick, is_object_valid, CCObject, Object, ObjectFlags,
    ObjectIdCounter, ObjectPool, RefCounted, ALL_HIDE_MASK, INVALID_HANDLE,
};

#[test]
fn test_ccobject_new() {
    let obj = CCObject::new("TestObject");
    assert_eq!(obj.get_name(), "TestObject");
    assert!(obj.is_valid());
    assert!(!obj.is_destroyed());
    assert!(!obj.is_to_destroy());
    assert_eq!(obj.get_ref_count(), 1);
}

#[test]
fn test_ccobject_id_unique() {
    let o1 = CCObject::new("A");
    let o2 = CCObject::new("B");
    assert_ne!(o1.get_id(), o2.get_id());
}

#[test]
fn test_ccobject_flags() {
    let mut obj = CCObject::new("Obj");
    assert!(!obj.has_flag(ObjectFlags::Dirty));
    obj.set_flag(ObjectFlags::Dirty, true);
    assert!(obj.has_flag(ObjectFlags::Dirty));
    obj.set_flag(ObjectFlags::Dirty, false);
    assert!(!obj.has_flag(ObjectFlags::Dirty));
}

#[test]
fn test_ccobject_destroy() {
    let mut obj = CCObject::new("ToDestroy");
    assert!(obj.is_valid());
    let result = obj.destroy();
    assert!(result);
    assert!(obj.is_to_destroy());

    let result2 = obj.destroy();
    assert!(!result2);
}

#[test]
fn test_ccobject_ref_count() {
    let mut obj = CCObject::new("Ref");
    assert_eq!(obj.get_ref_count(), 1);
    obj.add_ref();
    assert_eq!(obj.get_ref_count(), 2);
    obj.release();
    assert_eq!(obj.get_ref_count(), 1);
}

#[test]
fn test_ccobject_name() {
    let mut obj = CCObject::new("OldName");
    assert_eq!(obj.get_name(), "OldName");
    obj.set_name("NewName");
    assert_eq!(obj.get_name(), "NewName");
}

#[test]
fn test_ccobject_hide_flags() {
    let mut obj = CCObject::new("Obj");
    obj.set_hide_flags(ObjectFlags::EditOnly.bits());
    assert!(obj.get_hide_flags() & ObjectFlags::EditOnly.bits() != 0);
}

#[test]
fn test_is_object_valid() {
    let obj = CCObject::new("Valid");
    assert!(is_object_valid(&obj, false));
    assert!(is_object_valid(&obj, true));
}

#[test]
fn test_object_pool_alloc_free() {
    let mut pool: ObjectPool<i32> = ObjectPool::new();
    let h1 = pool.allocate(10);
    let _h2 = pool.allocate(20);
    assert_eq!(pool.len(), 2);

    let v1 = pool.get(h1).unwrap();
    assert_eq!(*v1.lock().unwrap(), 10);

    pool.free(h1);
    assert_eq!(pool.len(), 1);

    let h3 = pool.allocate(30);
    assert_eq!(h3, h1);
    assert_eq!(pool.len(), 2);
}

#[test]
fn test_object_pool_iter() {
    let mut pool: ObjectPool<String> = ObjectPool::new();
    pool.allocate("a".to_string());
    pool.allocate("b".to_string());
    pool.allocate("c".to_string());
    let count = pool.iter().len();
    assert_eq!(count, 3);
}

#[test]
fn test_object_pool_empty() {
    let pool: ObjectPool<i32> = ObjectPool::new();
    assert!(pool.is_empty());
    assert_eq!(pool.len(), 0);
}

#[test]
fn test_deferred_destroy_tick() {
    let mut obj = CCObject::new("DeferredObj");
    obj.destroy();
    deferred_destroy_tick();
}

#[test]
fn test_object_flags_all_hide_mask() {
    let mask = ObjectFlags::all_hide_mask();
    assert_ne!(mask, 0);
}

#[test]
fn test_all_hide_mask_value() {
    assert_eq!(ObjectFlags::all_hide_mask(), 0xffc0_1e1b);
    assert_eq!(ALL_HIDE_MASK, 0xffc0_1e1b);
    assert!(ObjectFlags::has_any_hide_flag(ObjectFlags::EditOnly.bits()));
    assert!(!ObjectFlags::has_any_hide_flag(ObjectFlags::Dirty.bits()));
    assert!(!ObjectFlags::has_any_hide_flag(0));
}

#[test]
fn test_flag_bits() {
    assert_eq!(ObjectFlags::Zero.bits(), 0);
    assert_eq!(ObjectFlags::Destroyed.bits(), 1);
    assert_eq!(ObjectFlags::ToDestroy.bits(), 4);
    assert_eq!(ObjectFlags::IsPreloadStarted.bits(), 1 << 13);
    assert_eq!(ObjectFlags::IsSkipTransformUpdate.bits(), 1 << 24);
}

#[test]
fn test_set_flag_leaves_others() {
    let mut obj = CCObject::new("Obj");
    obj.set_flag(ObjectFlags::Dirty, true);
    obj.set_flag(ObjectFlags::EditOnly, true);
    obj.set_flag(ObjectFlags::Dirty, false);
    assert!(obj.has_flag(ObjectFlags::EditOnly));
    assert!(!obj.has_flag(ObjectFlags::Dirty));
    obj.set_flag(ObjectFlags::Zero, true);
    assert!(!obj.has_flag(ObjectFlags::Zero));
}

#[test]
fn test_destroyed_object_is_invalid() {
    let mut obj = CCObject::new("Gone");
    obj.set_flag(ObjectFlags::Destroyed, true);
    assert!(!obj.is_valid());
    assert!(!is_object_valid(&obj, false));
    assert!(!obj.destroy());
}

#[test]
fn test_strict_validity_checks_hide_flags() {
    let mut obj = CCObject::new("Half");
    obj.set_hide_flags(ObjectFlags::Destroyed.bits());
    assert!(!is_object_valid(&obj, true));
    assert!(!is_object_valid(&obj, false));
}

#[test]
fn test_hide_flags_keep_runtime_flags() {
    let mut obj = CCObject::new("Obj");
    obj.set_flag(ObjectFlags::Dirty, true);
    obj.set_hide_flags(0);
    assert!(obj.has_flag(ObjectFlags::Dirty));
    obj.set_hide_flags(ObjectFlags::Dirty.bits());
    assert_eq!(obj.get_hide_flags(), 0);
}

#[test]
fn test_ccobject_to_string() {
    let obj = CCObject::new("Named");
    let expected = format!("[CCObject] Named (id={})", obj.get_id());
    assert_eq!(Object::to_string(&obj), expected);
}

#[test]
fn test_ccobject_default_and_last_reference() {
    let mut obj = CCObject::default();
    assert_eq!(obj.get_name(), "Object");
    assert!(obj.is_last_reference());
    obj.add_ref();
    assert!(!obj.is_last_reference());
    obj.release();
    obj.release();
    assert_eq!(obj.get_ref_count(), 0);
    obj.release();
    assert_eq!(obj.get_ref_count(), u32::MAX);
    deferred_destroy();
}

#[test]
fn test_object_pool_get_out_of_range_and_freed() {
    let mut pool: ObjectPool<u8> = ObjectPool::with_capacity(4);
    let h = pool.allocate(7);
    assert!(pool.get(h + 1).is_none());
    assert!(pool.get(INVALID_HANDLE).is_none());
    pool.free(h);
    assert!(pool.get(h).is_none());
    pool.free(99);
    assert_eq!(pool.len(), 0);
    assert!(pool.is_empty());
}

#[test]
fn test_object_pool_iter_skips_freed() {
    let mut pool: ObjectPool<i32> = ObjectPool::default();
    pool.allocate(1);
    let h = pool.allocate(2);
    pool.allocate(3);
    pool.free(h);
    let items = pool.iter();
    let idx: Vec<usize> = items.iter().map(|(i, _)| *i).collect();
    assert_eq!(idx, vec![0, 2]);
    assert_eq!(*items[1].1.lock().unwrap(), 3);
}

#[test]
fn test_object_ids_in_sequence() {
    let mut ids = ObjectIdCounter::new();
    let a = CCObject::with_id("A", ids.next_id());
    let b = CCObject::with_id("B", ids.next_id());
    assert_eq!(a.get_id(), 1);
    assert_eq!(b.get_id(), 2);
    assert_eq!(b.get_name(), "B");
    assert_eq!(b.get_ref_count(), 1);
}

#[test]
fn test_object_pool_len_after_free() {
    let mut pool: ObjectPool<u8> = ObjectPool::new();
    let a = pool.allocate(1);
    let b = pool.allocate(2);
    let c = pool.allocate(3);
    assert_eq!(pool.len(), 3);
    pool.free(b);
    assert_eq!(pool.len(), 2);
    assert!(pool.get(b).is_none());
    assert!(pool.get(a).is_some());
    assert!(pool.get(c).is_some());
    pool.free(10);
    assert_eq!(pool.len(), 2);
    let d = pool.allocate(4);
    assert_eq!(d, b);
    assert_eq!(pool.len(), 3);
}
