use ptab::Capacity;
use ptab::ConstParams;
use ptab::DefaultParams;
use ptab::Params;
use ptab::ParamsExt;
use ptab::CACHE_LINE;
use ptab::CACHE_LINE_SLOTS;

/// Every supported capacity, smallest first.
fn each_capacity() -> Vec<Capacity> {
    (4..=27).map(|bits| Capacity::new(1usize << bits)).collect()
}

#[test]
fn capacity_new_clamp_under_min() {
    assert_eq!(Capacity::new(1), Capacity::minimum());
}

#[test]
fn capacity_new_clamp_over_max() {
    assert_eq!(Capacity::new(Capacity::maximum().as_usize() + 1), Capacity::maximum());
}

#[test]
fn capacity_new_clamp_usize_max() {
    assert_eq!(Capacity::new(usize::MAX), Capacity::maximum());
}

#[test]
fn capacity_new_exact() {
    assert_eq!(Capacity::new(1 << 10).as_usize(), 1 << 10);
}

#[test]
fn capacity_new_round_up() {
    assert_eq!(Capacity::new((1 << 10) - 1).as_usize(), 1 << 10);
}

#[test]
fn capacity_as_u32() {
    for bits in 4..=27 {
        let size: usize = 1 << bits;
        assert_eq!(Capacity::new(size).as_u32(), size as u32);
    }
}

#[test]
fn capacity_as_usize() {
    for bits in 4..=27 {
        let size: usize = 1 << bits;
        assert_eq!(Capacity::new(size).as_usize(), size);
    }
}

#[test]
fn params_capacity_log2() {
    for bits in 4..=27 {
        let size: usize = 1 << bits;
        assert_eq!(Capacity::new(size).log2(), size.ilog2());
    }
}

#[test]
fn params_capacity_default() {
    assert_eq!(Capacity::default(), Capacity::default_capacity());
}

#[test]
fn params_capacity_into_usize() {
    for bits in 4..=27 {
        let size: usize = 1 << bits;
        assert_eq!(usize::from(Capacity::new(size)), size);
    }
}

#[test]
fn default_params() {
    assert_eq!(DefaultParams::length(), Capacity::default_capacity());
}

#[test]
fn params_length_vs_memory() {
    for cap in each_capacity() {
        let expected_size: usize = cap.as_usize() * std::mem::size_of::<u64>();
        let received_size: usize = cap.memory();

        assert!(received_size >= expected_size);
    }
}

#[test]
fn params_length_vs_blocks() {
    for cap in each_capacity() {
        let expected: usize = cap.as_usize();
        let received: usize = cap.blocks() * CACHE_LINE_SLOTS;

        assert_eq!(expected, received);
    }
}

#[test]
fn params_derive_blocks_at_runtime() {
    for cap in each_capacity() {
        assert_eq!(cap.blocks(), ptab::params::derive_blocks(cap));
    }
}

#[test]
fn params_blocks_power_of_two() {
    for cap in each_capacity() {
        assert!(cap.blocks().is_power_of_two());
    }
}

#[test]
fn id_mask_bits_composition() {
    for cap in each_capacity() {
        assert_eq!(cap.id_mask_bits(), cap.id_shift_block() + cap.id_shift_index());
    }
}

#[test]
fn id_mask_entry_composition() {
    for cap in each_capacity() {
        assert_eq!(
            cap.id_mask_entry(),
            (cap.id_mask_block() << cap.id_shift_block()) ^ cap.id_mask_index(),
        );
    }
}

#[test]
fn id_mask_entry_covers_all_indices() {
    for cap in each_capacity() {
        for index in 0..cap.as_usize() {
            assert!(index <= cap.id_mask_entry());
        }
    }
}

#[test]
fn id_shift_block_composition() {
    for cap in each_capacity() {
        assert_eq!(cap.id_shift_block(), cap.id_mask_index().count_ones());
    }
}

#[test]
fn id_shift_index_composition() {
    for cap in each_capacity() {
        assert_eq!(cap.id_shift_index(), cap.id_mask_block().count_ones());
    }
}

#[test]
fn capacity_min() {
    assert_eq!(Capacity::new(1).as_usize(), Capacity::minimum().as_usize());
}

#[test]
fn capacity_max() {
    let max: usize = Capacity::maximum().as_usize();

    assert_eq!(Capacity::new(max + 1).as_usize(), max);
    assert_eq!(Capacity::new(usize::MAX).as_usize(), max);
}

#[test]
fn capacity_round_up() {
    assert_eq!(Capacity::new((1 << 7) - 25).as_usize(), 1 << 7);
}

#[test]
fn capacity_exact() {
    assert_eq!(Capacity::new(1 << 8).as_usize(), 1 << 8);
}

#[test]
fn blocks() {
    for cap in each_capacity() {
        let expected: usize = cap.as_usize() * std::mem::size_of::<u64>();
        let received: usize = cap.blocks() * CACHE_LINE;

        assert!(received >= expected, "invalid params: not enough block capacity - {:?}", cap);
    }
}

#[test]
fn blocks_vs_length() {
    for cap in each_capacity() {
        let expected: usize = cap.blocks() * CACHE_LINE_SLOTS;
        let received: usize = cap.as_usize();

        assert_eq!(expected, received, "invalid params: corrupted block calculation - {:?}", cap);
    }
}

#[test]
fn masks_and_shifts() {
    for cap in each_capacity() {
        assert!(
            cap.as_usize().is_power_of_two(),
            "invalid params: `LENGTH` must be a power of two - {:?}",
            cap,
        );

        assert!(
            cap.blocks().is_power_of_two(),
            "invalid params: `BLOCKS` must be a power of two - {:?}",
            cap,
        );

        assert_eq!(
            cap.id_shift_block(),
            cap.id_mask_index().count_ones(),
            "invalid params: corrupted bit shift (ID_SHIFT_BLOCK) - {:?}",
            cap,
        );

        assert_eq!(
            cap.id_shift_index(),
            cap.id_mask_block().count_ones(),
            "invalid params: corrupted bit shift (ID_SHIFT_INDEX) - {:?}",
            cap,
        );

        assert_eq!(
            cap.id_mask_bits(),
            cap.id_shift_block() + cap.id_shift_index(),
            "invalid params: corrupted bit width relationship - {:?}",
            cap,
        );

        assert_eq!(
            cap.id_mask_entry(),
            (cap.id_mask_block() << cap.id_shift_block()) ^ cap.id_mask_index(),
            "invalid params: corrupted mask composition - {:?}",
            cap,
        );
    }
}

#[test]
fn entry_mask_covers_all_indices() {
    for cap in each_capacity() {
        for index in 0..cap.as_usize() {
            assert!(
                index <= cap.id_mask_entry(),
                "invalid params: index[{}] escapes entry mask - {:?}",
                index,
                cap,
            );
        }
    }
}

#[test]
fn derive_blocks() {
    for cap in each_capacity() {
        assert_eq!(cap.blocks(), ptab::params::derive_blocks(cap));
    }
}

#[test]
fn const_params_round_and_clamp() {
    assert_eq!(ConstParams::<4096>::length().as_usize(), 4096);
    assert_eq!(ConstParams::<1000>::length().as_usize(), 1024);
    assert_eq!(ConstParams::<0>::length(), Capacity::minimum());
    assert_eq!(ConstParams::<{ usize::MAX }>::length(), Capacity::maximum());
}

#[test]
fn params_ext_matches_capacity() {
    let cap = DefaultParams::length();

    assert_eq!(DefaultParams::blocks(), cap.blocks());
    assert_eq!(DefaultParams::blocks(), 1 << 16);
    assert_eq!(DefaultParams::memory(), (1 << 20) * 8);
    assert_eq!(DefaultParams::id_mask_bits(), 20);
    assert_eq!(DefaultParams::id_mask_entry(), (1 << 20) - 1);
    assert_eq!(DefaultParams::id_mask_block(), (1 << 16) - 1);
    assert_eq!(DefaultParams::id_mask_index(), 15);
    assert_eq!(DefaultParams::id_shift_block(), 4);
    assert_eq!(DefaultParams::id_shift_index(), 16);
}

#[test]
fn capacity_is_valid() {
    assert!(Capacity::is_valid(16));
    assert!(Capacity::is_valid(1 << 27));
    assert!(!Capacity::is_valid(8));
    assert!(!Capacity::is_valid(100));
    assert!(!Capacity::is_valid(1 << 28));
    assert_eq!(Capacity::new_unchecked(1 << 12).as_usize(), 1 << 12);
}

#[test]
fn capacity_bounds() {
    assert_eq!(Capacity::minimum().as_usize(), 16);
    assert_eq!(Capacity::maximum().as_usize(), 1 << 27);
    assert_eq!(Capacity::default_capacity().as_usize(), 1 << 20);
    assert_eq!(Capacity::new(17).as_usize(), 32);
    assert_eq!(Capacity::new(0), Capacity::minimum());
}
