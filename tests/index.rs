use std::collections::HashSet;

use ptab::Abstract;
use ptab::Capacity;
use ptab::Concrete;
use ptab::Detached;
use ptab::CACHE_LINE_SLOTS;

/// Every supported capacity, smallest first.
fn each_capacity() -> Vec<Capacity> {
    (4..=27).map(|bits| Capacity::new(1usize << bits)).collect()
}

/// The capacities whose every slot a test walks through: the smallest, a
/// middle one and a large one.
fn sampled_capacities() -> Vec<Capacity> {
    vec![Capacity::new(1 << 4), Capacity::new(1 << 10), Capacity::new(1 << 16)]
}

#[allow(clippy::clone_on_copy)]
#[test]
fn index_abstract_clone_copy() {
    let a: Abstract = Abstract::new(123);
    let b: Abstract = a.clone();
    let c: Abstract = b;

    assert_eq!(a, b);
    assert_eq!(b, c);
    assert_eq!(c, a);
}

#[allow(clippy::clone_on_copy)]
#[test]
fn index_concrete_clone_copy() {
    let a: Concrete = Concrete::new(123);
    let b: Concrete = a.clone();
    let c: Concrete = b;

    assert_eq!(a, b);
    assert_eq!(b, c);
    assert_eq!(c, a);
}

#[test]
fn index_abstract_to_concrete_covers_all_slots() {
    for cap in sampled_capacities() {
        let mut used: HashSet<usize> = HashSet::with_capacity(cap.as_usize());

        for index in 0..cap.as_usize() {
            let abstract_idx: Abstract = Abstract::new(index);
            let concrete_idx: Concrete = Concrete::from_abstract(abstract_idx, cap);

            used.insert(concrete_idx.get());
        }

        assert_eq!(
            used.len(),
            cap.as_usize(),
            "invalid id mapping: abstract fails to cover all concrete slots - {:?}",
            cap,
        );
    }
}

#[test]
fn index_abstract_to_detached_roundtrip() {
    for cap in sampled_capacities() {
        for index in 0..cap.as_usize() {
            let abstract_idx: Abstract = Abstract::new(index);
            let detached_idx: Detached = Detached::from_abstract(abstract_idx, cap);
            let recovery_idx: Abstract = Abstract::from_detached(detached_idx, cap);

            assert_eq!(
                abstract_idx,
                recovery_idx,
                "invalid id mapping: abstract-to-detached conversion not recoverable - {:?}",
                cap,
            );
        }
    }
}

#[test]
fn index_detached_to_concrete_matches_direct_conversion() {
    for cap in sampled_capacities() {
        for index in 0..cap.as_usize() {
            let abstract_idx: Abstract = Abstract::new(index);
            let detached_idx: Detached = Detached::from_abstract(abstract_idx, cap);
            let concrete_idx: Concrete = Concrete::from_abstract(abstract_idx, cap);
            let recovery_idx: Concrete = Concrete::from_detached(detached_idx, cap);

            assert_eq!(
                concrete_idx,
                recovery_idx,
                "invalid id mapping: detached-to-concrete conversion mismatch - {:?}",
                cap,
            );
        }
    }
}

#[test]
fn index_cache_line_distribution() {
    // Consecutive abstract indices are spread across cache lines.
    for cap in each_capacity() {
        if cap.blocks() <= 1 {
            continue; // a single block has nothing to spread over
        }

        let mut blocks: HashSet<usize> = HashSet::with_capacity(CACHE_LINE_SLOTS);

        for index in 0..CACHE_LINE_SLOTS {
            let abstract_idx: Abstract = Abstract::new(index);
            let concrete_idx: Concrete = Concrete::from_abstract(abstract_idx, cap);

            blocks.insert(concrete_idx.get() / CACHE_LINE_SLOTS);
        }

        assert_eq!(
            blocks.len(),
            cap.blocks().min(CACHE_LINE_SLOTS),
            "invalid id mapping: corrupted cache-line distribution - {:?}",
            cap,
        );
    }
}

#[test]
fn index_serial_number_preservation() {
    for cap in sampled_capacities() {
        for generation in 0..16 {
            let serial: usize = generation * cap.as_usize();

            for index in 0..cap.as_usize() {
                let abstract_idx: Abstract = Abstract::new(serial + index);
                let detached_idx: Detached = Detached::from_abstract(abstract_idx, cap);
                let recovery_idx: Abstract = Abstract::from_detached(detached_idx, cap);

                assert_eq!(
                    abstract_idx,
                    recovery_idx,
                    "invalid id mapping: serial number not preserved - {:?}",
                    cap,
                );
            }
        }
    }
}

#[test]
fn index_detached_display_transparency() {
    let value: usize = 123;
    let index: Detached = Detached::from_bits(value);

    assert_eq!(index.to_string(), format!("{value}"));
}

#[test]
fn detached_bits_round_trip() {
    for bits in [0usize, 1, 123, usize::MAX] {
        assert_eq!(Detached::from_bits(bits).into_bits(), bits);
    }
}

#[test]
fn detached_keeps_generation_bits() {
    // At capacity 16 the low four bits name the slot; the rest is the
    // generation, which the public form keeps in place.
    let cap = Capacity::new(16);
    let abstract_idx = Abstract::new(5 * 16 + 3);
    let detached = Detached::from_abstract(abstract_idx, cap);

    assert_eq!(detached.into_bits(), 5 * 16 + 3);
    assert_eq!(Concrete::from_detached(detached, cap).get(), 3);
}

#[test]
fn concrete_stripes_blocks() {
    // At capacity 1024 there are 64 blocks of 16 slots: abstract index `a`
    // lands in block `a % 64`, at offset `(a / 64) % 16`.
    let cap = Capacity::new(1024);

    assert_eq!(Concrete::from_abstract(Abstract::new(0), cap).get(), 0);
    assert_eq!(Concrete::from_abstract(Abstract::new(1), cap).get(), 16);
    assert_eq!(Concrete::from_abstract(Abstract::new(63), cap).get(), 63 * 16);
    assert_eq!(Concrete::from_abstract(Abstract::new(64), cap).get(), 1);
    assert_eq!(Concrete::from_abstract(Abstract::new(1024 + 65), cap).get(), 16 + 1);
}

#[test]
fn abstract_from_detached_exact() {
    // The inverse of the striping above.
    let cap = Capacity::new(1024);

    assert_eq!(Abstract::from_detached(Detached::from_bits(16), cap).get(), 1);
    assert_eq!(Abstract::from_detached(Detached::from_bits(1), cap).get(), 64);
    assert_eq!(Abstract::from_detached(Detached::from_bits(3 * 1024 + 17), cap).get(), 3 * 1024 + 65);
}
