use billow::{Block, BlockLayout, LayoutError, MemLayout};
use std::alloc::Layout;

fn layout_of(sizes_aligns: &[(usize, usize)]) -> (BlockLayout, Vec<usize>) {
    let mut builder = BlockLayout::build();
    let mut slots = Vec::new();
    for &(size, align) in sizes_aligns {
        slots.push(builder.add_layout(MemLayout { size, align }));
    }
    (builder.finish().unwrap(), slots)
}

#[test]
fn empty() {
    let layout = BlockLayout::build().finish().unwrap();
    let mut block = [0u8; 32];
    let b = layout.apply(block.as_mut_ptr() as usize, 32);
    assert_eq!(b.len(), 0);
    assert_eq!(b.range(), 0..0);
    assert_eq!(b.address(0), None);
}

#[test]
fn single_zst() {
    struct Foo;

    let (layout, foo) = {
        let mut layout = BlockLayout::build();
        let foo = layout.add::<Foo>();
        (layout.finish().unwrap(), foo)
    };

    let mut data = [0u8; 32];
    let base = data.as_mut_ptr() as usize;
    let block = layout.apply(base, 32);

    assert_eq!(block.len(), usize::MAX);
    assert_eq!(block.address(foo), Some(base));
}

#[test]
fn ordering() {
    #[derive(Copy, Clone)]
    struct Small {
        _a: u8,
        _b: u8,
        _c: u8,
    }

    #[derive(Copy, Clone)]
    struct Large {
        _a: f32,
        _b: [u64; 8],
    }

    let (layout, small, large) = {
        let mut layout = BlockLayout::build();
        let small = layout.add::<Small>();
        let large = layout.add::<Large>();
        (layout.finish().unwrap(), small, large)
    };

    let mut data = [0u8; 512];
    let block = layout.apply(data.as_mut_ptr() as usize, 512);

    let small_layout = Layout::new::<Small>();
    let large_layout = Layout::new::<Large>();
    assert_eq!(
        layout.layout().align(),
        small_layout.align().max(large_layout.align())
    );
    assert_eq!(
        layout.layout().size(),
        small_layout.size() + large_layout.size()
    );

    let small_at = block.address(small).unwrap();
    let large_at = block.address(large).unwrap();
    assert_eq!(small_at % small_layout.align(), 0);
    assert_eq!(large_at % large_layout.align(), 0);
    assert!(large_at < small_at);
}

#[test]
fn slots_are_distinct_for_the_same_type() {
    let mut builder = BlockLayout::build();
    let a = builder.add::<u8>();
    let b = builder.add::<u8>();
    let c = builder.add::<[f32; 2]>();
    assert_eq!((a, b, c), (0, 1, 2));
}

#[test]
fn add_registers_the_type_layout() {
    let mut builder = BlockLayout::build();
    builder.add::<u64>();
    builder.add::<[u16; 3]>();
    let layout = builder.finish().unwrap();
    assert_eq!(layout.layout().size(), 8 + 6);
    assert_eq!(layout.layout().align(), std::mem::align_of::<u64>());
}

#[test]
fn mem_layout_getters() {
    let m = MemLayout { size: 24, align: 8 };
    assert_eq!(m.size(), 24);
    assert_eq!(m.align(), 8);
}

#[test]
fn concrete_scenario_packs_larger_alignment_first() {
    let (layout, slots) = layout_of(&[(3, 1), (40, 8)]);
    assert_eq!(layout.layout(), MemLayout { size: 43, align: 8 });
    let block = layout.apply(4096, 512);
    assert_eq!(block.len(), 11);
    assert_eq!(block.range(), 0..512);
    assert_eq!(block.address(slots[1]), Some(4096));
    assert_eq!(block.address(slots[0]), Some(4096 + 40 * 11));
}

#[test]
fn zero_sized_field_is_unbounded_at_aligned_start() {
    let (layout, slots) = layout_of(&[(0, 1)]);
    assert_eq!(layout.layout(), MemLayout { size: 0, align: 1 });
    let block = layout.apply(4099, 17);
    assert_eq!(block.len(), usize::MAX);
    assert_eq!(block.address(slots[0]), Some(4099));
    assert_eq!(block.range(), 0..17);
}

#[test]
fn zero_sized_fields_with_larger_alignment() {
    let (layout, slots) = layout_of(&[(0, 4), (0, 1)]);
    let block = layout.apply(4097, 64);
    assert_eq!(block.len(), usize::MAX);
    assert_eq!(block.address(slots[0]), Some(4100));
    assert_eq!(block.address(slots[1]), Some(4100));
    assert_eq!(block.range(), 3..63);
}

#[test]
fn empty_layout_ignores_region_size() {
    let layout = BlockLayout::build().finish().unwrap();
    assert_eq!(layout.layout(), MemLayout { size: 0, align: 1 });
    let block = layout.apply(4097, 1 << 20);
    assert_eq!(block.len(), 0);
    assert_eq!(block.range(), 0..0);
}

#[test]
fn unaligned_region_is_rounded_inward() {
    let (layout, slots) = layout_of(&[(3, 1), (40, 8)]);
    let block = layout.apply(4097, 512);
    // usable bytes run from 4104 to 4608
    assert_eq!(block.range(), 7..511);
    assert_eq!(block.len(), 504 / 43);
    assert_eq!(block.address(slots[1]), Some(4104));
    assert_eq!(block.address(slots[0]), Some(4104 + 40 * 11));
}

#[test]
fn region_smaller_than_alignment_gives_no_elements() {
    let (layout, slots) = layout_of(&[(8, 8)]);
    let block = layout.apply(4097, 3);
    assert_eq!(block.len(), 0);
    assert_eq!(block.range(), 7..7);
    assert_eq!(block.address(slots[0]), Some(4104));
}

#[test]
fn equal_alignments_keep_registration_order() {
    let (layout, slots) = layout_of(&[(4, 4), (2, 2), (4, 4), (8, 8)]);
    assert_eq!(layout.layout(), MemLayout { size: 18, align: 8 });
    let block = layout.apply(0, 184);
    assert_eq!(block.len(), 10);
    // packing order: slot 3, slot 0, slot 2, slot 1
    assert_eq!(block.address(slots[3]), Some(0));
    assert_eq!(block.address(slots[0]), Some(80));
    assert_eq!(block.address(slots[2]), Some(120));
    assert_eq!(block.address(slots[1]), Some(160));
}

#[test]
fn every_address_is_aligned_and_inside() {
    let fields = [(3, 1), (16, 16), (6, 2), (4, 4), (16, 8), (1, 1)];
    let (layout, slots) = layout_of(&fields);
    let base = 1001;
    let size = 4000;
    let block = layout.apply(base, size);
    let start = base + block.range().start;
    let end = base + block.range().end;
    assert_eq!(start % 16, 0);
    for (i, &(fsize, falign)) in fields.iter().enumerate() {
        let at = block.address(slots[i]).unwrap();
        assert_eq!(at % falign, 0);
        assert!(start <= at);
        assert!(at + fsize * block.len() <= end);
    }
}

#[test]
fn element_count_never_exceeds_usable_bytes() {
    let (layout, _) = layout_of(&[(12, 4), (1, 1)]);
    for size in [0usize, 12, 13, 25, 26, 27, 100, 1000] {
        let block = layout.apply(64, size);
        let usable = block.range().end - block.range().start;
        assert!(block.len() * 13 <= usable);
        assert!(usable < (block.len() + 1) * 13);
    }
}

#[test]
fn same_fields_give_same_layout() {
    let fields = [(2, 2), (8, 8), (1, 1), (8, 4)];
    let (a, sa) = layout_of(&fields);
    let (b, sb) = layout_of(&fields);
    assert_eq!(a.layout(), b.layout());
    let ba: Block = a.apply(333, 777);
    let bb: Block = b.apply(333, 777);
    assert_eq!(ba.len(), bb.len());
    assert_eq!(ba.range(), bb.range());
    for i in 0..fields.len() {
        assert_eq!(ba.address(sa[i]), bb.address(sb[i]));
    }
}

#[test]
fn element_size_is_sum_of_field_sizes() {
    let (layout, _) = layout_of(&[(3, 1), (24, 8), (10, 2)]);
    assert_eq!(layout.layout().size(), 37);
    assert_eq!(layout.layout().align(), 8);
}

#[test]
fn oversized_layout_is_refused() {
    let mut builder = BlockLayout::build();
    builder.add_layout(MemLayout { size: 1 << 62, align: 1 });
    builder.add_layout(MemLayout { size: 1 << 62, align: 1 });
    assert!(matches!(builder.finish(), Err(LayoutError::SizeOverflow)));
}

#[test]
fn saturated_sum_is_refused() {
    let mut builder = BlockLayout::build();
    for _ in 0..3 {
        builder.add_layout(MemLayout { size: 1 << 63, align: 1 });
    }
    assert!(matches!(builder.finish(), Err(LayoutError::SizeOverflow)));
}

#[test]
fn largest_accepted_size_rounds_to_isize_max() {
    let mut builder = BlockLayout::build();
    builder.add_layout(MemLayout { size: (isize::MAX as usize) - 7, align: 8 });
    let layout = builder.finish().unwrap();
    assert_eq!(layout.layout().size(), (isize::MAX as usize) - 7);

    let mut builder = BlockLayout::build();
    builder.add_layout(MemLayout { size: (isize::MAX as usize) - 7, align: 8 });
    builder.add_layout(MemLayout { size: 8, align: 8 });
    assert!(matches!(builder.finish(), Err(LayoutError::SizeOverflow)));
}

#[test]
fn out_of_range_slot_has_no_address() {
    let (layout, _) = layout_of(&[(4, 4)]);
    let block = layout.apply(0, 64);
    assert_eq!(block.address(1), None);
}
