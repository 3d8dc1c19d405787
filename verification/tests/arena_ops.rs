use memory_arena::MemoryArena;
use memory_arena::OutOfMemoryError;
use memory_arena::UsageError;

const ENTITY_SIZE: usize = 32;
const ENTITY_ALIGN: usize = 4;

/// Writes one `u32` field of an entity-shaped record that starts at `base`.
fn set_field(arena: &mut MemoryArena, base: usize, field: usize, value: u32) {
    arena.write_bytes(base + 4 * field, &value.to_le_bytes());
}

/// Reads one `u32` field back out of the buffer.
fn get_field(arena: &MemoryArena, base: usize, field: usize) -> u32 {
    let off = base + 4 * field;
    u32::from_le_bytes([
        arena.read_byte(off),
        arena.read_byte(off + 1),
        arena.read_byte(off + 2),
        arena.read_byte(off + 3),
    ])
}

#[test]
fn it_works() {
    let capacity: usize = 2 * ENTITY_SIZE;
    let base = vec![0u8; capacity];

    let mut arena = MemoryArena::new(capacity, base);
    let entity = arena.allocate(ENTITY_SIZE, ENTITY_ALIGN).unwrap();
    set_field(&mut arena, entity, 0, 0); // health
    set_field(&mut arena, entity, 1, 1); // stamina
    set_field(&mut arena, entity, 2, 2); // mana
    set_field(&mut arena, entity, 3, 3); // speed
    set_field(&mut arena, entity, 4, 4); // age
    set_field(&mut arena, entity, 5, 5); // weight
    set_field(&mut arena, entity, 6, 6); // height
    set_field(&mut arena, entity, 7, 7); // width

    let entity2 = arena.allocate(ENTITY_SIZE, ENTITY_ALIGN).unwrap();
    set_field(&mut arena, entity2, 0, 8);
    set_field(&mut arena, entity2, 1, 9);
    set_field(&mut arena, entity2, 2, 10);
    set_field(&mut arena, entity2, 3, 11);
    set_field(&mut arena, entity2, 4, 12);
    set_field(&mut arena, entity2, 5, 13);
    set_field(&mut arena, entity2, 6, 14);
    set_field(&mut arena, entity2, 7, 15);

    println!("arena: {:?}", arena);
}

#[test]
fn new_arena_is_empty() {
    let arena = MemoryArena::new(10, vec![0u8; 16]);
    assert_eq!(arena.remaining_capacity(), 10);
    assert_eq!(arena.open_temp_count(), 0);
}

#[test]
fn monotonic_growth() {
    // Over any sequence of successful allocations the cursor never decreases
    // and never exceeds the capacity: remaining capacity never increases and
    // is never negative (it is returned at all, so used <= capacity).
    let mut arena = MemoryArena::new(100, vec![0u8; 100]);
    let mut last_remaining = arena.remaining_capacity();
    for size in [1usize, 7, 3, 12, 1, 30] {
        arena.allocate(size, 2).unwrap();
        let now = arena.remaining_capacity();
        assert!(now <= last_remaining);
        last_remaining = now;
    }
}

#[test]
fn no_overlap_and_alignment() {
    let mut arena = MemoryArena::new(128, vec![0u8; 128]);
    let mut blocks: Vec<(usize, usize)> = Vec::new();
    for (size, align) in [(1usize, 1usize), (8, 8), (3, 2), (4, 4), (16, 16), (5, 1)] {
        let off = arena.allocate(size, align).unwrap();
        assert_eq!(off % align, 0, "block must be aligned");
        assert!(off + size <= 128, "block must lie inside the capacity");
        blocks.push((off, size));
    }
    for i in 0..blocks.len() {
        for j in (i + 1)..blocks.len() {
            let (o1, s1) = blocks[i];
            let (o2, s2) = blocks[j];
            assert!(o1 + s1 <= o2 || o2 + s2 <= o1, "blocks must not overlap");
        }
    }
}

#[test]
fn exhaustion_leaves_cursor_unchanged() {
    let mut arena = MemoryArena::new(10, vec![0u8; 10]);
    loop {
        let before = arena.remaining_capacity();
        match arena.allocate(4, 1) {
            Ok(_) => {
                assert_eq!(arena.remaining_capacity(), before - 4);
            }
            Err(e) => {
                assert_eq!(e, OutOfMemoryError);
                assert!(before < 4);
                assert_eq!(arena.remaining_capacity(), before);
                break;
            }
        }
    }
    // 10 = 4 + 4 + 2 left over.
    assert_eq!(arena.remaining_capacity(), 2);
}

#[test]
fn rollback_restores_capacity() {
    let mut arena = MemoryArena::new(100, vec![0u8; 100]);
    arena.allocate(11, 1).unwrap();
    let before = arena.remaining_capacity();
    let mut region = arena.open_temporary_region();
    assert_eq!(arena.open_temp_count(), 1);
    arena.allocate(5, 1).unwrap();
    arena.allocate(24, 8).unwrap();
    arena.allocate(1, 1).unwrap();
    assert!(arena.remaining_capacity() < before);
    region.rollback(&mut arena).unwrap();
    assert_eq!(arena.remaining_capacity(), before);
    assert_eq!(arena.open_temp_count(), 0);
}

#[test]
fn commit_preserves_allocations() {
    let mut arena = MemoryArena::new(100, vec![0u8; 100]);
    arena.allocate(10, 1).unwrap();
    let before = arena.remaining_capacity();
    let mut region = arena.open_temporary_region();
    // Sizes with align 1: no padding, so the total allocated is exactly 5 + 7.
    arena.allocate(5, 1).unwrap();
    let last = arena.allocate(7, 1).unwrap();
    region.commit(&mut arena).unwrap();
    assert_eq!(arena.remaining_capacity(), before - 12);
    // The next allocation starts after the committed bytes.
    let next = arena.allocate(1, 1).unwrap();
    assert_eq!(next, last + 7);
}

#[test]
fn lifo_enforcement() {
    let mut arena = MemoryArena::new(100, vec![0u8; 100]);
    let mut region_a = arena.open_temporary_region();
    arena.allocate(8, 1).unwrap();
    let mut region_b = arena.open_temporary_region();
    arena.allocate(4, 1).unwrap();
    let used_before = 100 - arena.remaining_capacity();

    // Closing A while B is still open is refused and changes nothing.
    assert_eq!(region_a.commit(&mut arena), Err(UsageError));
    assert_eq!(100 - arena.remaining_capacity(), used_before);
    assert_eq!(region_a.rollback(&mut arena), Err(UsageError));
    assert_eq!(100 - arena.remaining_capacity(), used_before);
    assert_eq!(arena.open_temp_count(), 2);

    // Closing in reverse order works.
    region_b.rollback(&mut arena).unwrap();
    region_a.rollback(&mut arena).unwrap();
    assert_eq!(arena.remaining_capacity(), 100);
    assert_eq!(arena.open_temp_count(), 0);
}

#[test]
fn closed_region_cannot_be_reused() {
    let mut arena = MemoryArena::new(16, vec![0u8; 16]);
    let mut region = arena.open_temporary_region();
    arena.allocate(3, 1).unwrap();
    region.commit(&mut arena).unwrap();
    assert_eq!(region.commit(&mut arena), Err(UsageError));
    assert_eq!(region.rollback(&mut arena), Err(UsageError));
    assert_eq!(arena.remaining_capacity(), 13);
}

#[test]
fn write_and_read_bytes() {
    let mut arena = MemoryArena::new(8, vec![0u8; 8]);
    let block = arena.allocate(6, 1).unwrap();
    arena.write_bytes(block + 1, &[0xAB, 0xCD, 0xEF]);
    assert_eq!(arena.read_byte(block), 0);
    assert_eq!(arena.read_byte(block + 1), 0xAB);
    assert_eq!(arena.read_byte(block + 2), 0xCD);
    assert_eq!(arena.read_byte(block + 3), 0xEF);
    assert_eq!(arena.read_byte(block + 4), 0);
}

#[test]
fn alignment_pads_the_cursor() {
    let mut arena = MemoryArena::new(32, vec![0u8; 32]);
    let first = arena.allocate(1, 1).unwrap();
    assert_eq!(first, 0);
    let second = arena.allocate(4, 4).unwrap();
    assert_eq!(second, 4, "cursor 1 must be padded up to the next multiple of 4");
    assert_eq!(arena.remaining_capacity(), 32 - 8);
}

#[test]
fn entity_pair_fills_arena() {
    // Capacity for exactly two 32-byte entities of eight u32 fields.
    let capacity: usize = 2 * ENTITY_SIZE;
    let mut arena = MemoryArena::new(capacity, vec![0u8; capacity]);

    let first = arena.allocate(ENTITY_SIZE, ENTITY_ALIGN).unwrap();
    set_field(&mut arena, first, 4, 29); // age
    let second = arena.allocate(ENTITY_SIZE, ENTITY_ALIGN).unwrap();
    set_field(&mut arena, second, 4, 42); // age

    assert_eq!(arena.remaining_capacity(), 0);
    assert_eq!(arena.allocate(ENTITY_SIZE, ENTITY_ALIGN), Err(OutOfMemoryError));

    assert_eq!(get_field(&arena, first, 4), 29);
    assert_eq!(get_field(&arena, second, 4), 42);
}
