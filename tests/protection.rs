use rust_alloc::{
    label_from_raw, teardown, LevelScope, MemLayout, PageAllocator, ProtectionError,
    ProtectionLevel, RSBMalloc, AllocStep, TeardownStep, CHUNK_SIZE,
};
use std::collections::HashMap;

/// The rights register of one thread, label by label.
struct Rights {
    by_label: HashMap<i32, i32>,
}

impl Rights {
    fn with_level<O>(&mut self, label: i32, level: ProtectionLevel, f: impl FnOnce(&Self) -> O) -> O {
        let (scope, flags) = LevelScope::enter(label, self.by_label[&label], level);
        self.by_label.insert(label, flags);
        let out = f(self);
        self.by_label.insert(scope.label(), scope.exit());
        out
    }

    fn readable(&self, label: i32) -> bool {
        self.by_label[&label] & 1 == 0
    }

    fn writable(&self, label: i32) -> bool {
        self.by_label[&label] == 0
    }
}

#[test]
fn basic_labelled_memory() {
    let label = label_from_raw(3).unwrap();
    let mut rights = Rights { by_label: HashMap::new() };
    rights.by_label.insert(label, ProtectionLevel::DenyAll.to_flags());
    let mut secret: Vec<i32> = Vec::new();
    rights.with_level(label, ProtectionLevel::ReadWrite, |r| {
        assert!(r.writable(label));
        for i in 0..=1024 {
            secret.push(i);
        }
    });
    rights.with_level(label, ProtectionLevel::ReadWrite, |r| {
        assert!(r.writable(label));
        for v in secret.iter_mut() {
            *v = v.wrapping_sub(1024);
        }
    });
    assert!(!rights.readable(label));
    let first = rights.with_level(label, ProtectionLevel::ReadOnly, |r| {
        assert!(r.readable(label) && !r.writable(label));
        secret[0]
    });
    assert_eq!(first, -1024);
    assert_eq!(rights.by_label[&label], 1);
}

#[test]
fn levels_map_to_kernel_flags() {
    assert_eq!(ProtectionLevel::DenyAll.to_flags(), 1);
    assert_eq!(ProtectionLevel::ReadOnly.to_flags(), 2);
    assert_eq!(ProtectionLevel::ReadWrite.to_flags(), 0);
}

#[test]
fn scoped_level_is_restored() {
    let (scope, flags) = LevelScope::enter(5, 2, ProtectionLevel::ReadWrite);
    assert_eq!(flags, 0);
    assert_eq!(scope.label(), 5);
    assert_eq!(scope.exit(), 2);
    let (scope, flags) = LevelScope::enter(5, 0, ProtectionLevel::DenyAll);
    assert_eq!(flags, 1);
    assert_eq!(scope.exit(), 0);
}

#[test]
fn label_exhaustion_is_reported() {
    assert_eq!(label_from_raw(-1), Err(ProtectionError::OutOfLabels));
    assert_eq!(label_from_raw(0), Ok(0));
    assert_eq!(label_from_raw(15), Ok(15));
}

#[test]
fn teardown_unmaps_every_chunk_before_releasing_the_label() {
    let mut h = RSBMalloc::new(7, PageAllocator::new(4096).unwrap());
    let mut next = 0x2000_0000usize;
    for (size, align) in [(4, 4), (100, 8), (5000, 4096), (4, 4)] {
        let l = MemLayout::from_size_align(size, align).unwrap();
        if let AllocStep::NeedChunk { class, chunk } = h.allocate(l) {
            assert_eq!(chunk.size, CHUNK_SIZE);
            assert!(h.chunk_arrived(class, next).is_some());
            next += 0x20000;
        }
    }
    let steps = teardown(&mut h);
    assert_eq!(steps.len(), 4);
    assert_eq!(steps[3], TeardownStep::ReleaseLabel { label: 7 });
    let bases: Vec<usize> = steps[..3]
        .iter()
        .map(|s| match s {
            TeardownStep::Unmap { base, .. } => *base,
            TeardownStep::ReleaseLabel { .. } => panic!("label released too early"),
        })
        .collect();
    assert_eq!(bases, vec![0x2000_0000, 0x2002_0000, 0x2004_0000]);
    assert_eq!(teardown(&mut h), vec![TeardownStep::ReleaseLabel { label: 7 }]);
}
