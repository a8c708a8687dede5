//! Branches in patch units.

use nixe_boundary::{PollCheckpoint, StateMap};

fn exit_map(offset: u32, patch_bytes: u8, poll: Option<PollCheckpoint>) -> StateMap {
    StateMap {
        id: 1,
        offset,
        entry: false,
        patch_bytes,
        fault_bytes: 0,
        poll,
        subtract_flags: false,
        values: Vec::new(),
    }
}

#[test]
fn nixe_exit_patch_range_alignment_and_direction() {
    for bytes in [4, 8] {
        let map = StateMap {
            id: 1,
            offset: 8,
            entry: false,
            patch_bytes: bytes,
            fault_bytes: 0,
            poll: None,
            subtract_flags: false,
            values: Vec::new(),
        };
        let base = 1u64 << 32;
        let source = base + 8;
        let (min, max, bias) = if bytes == 4 {
            (-(1i64 << 27), (1i64 << 27) - 4, 0)
        } else {
            (i64::from(i32::MIN), i64::from(i32::MAX), 5)
        };
        for delta in [min, -16, 0, 16, max] {
            let target = u64::try_from(source as i64 + bias + delta).unwrap();
            let mut code = [0xcc; 24];
            map.patch_exit(&mut code, base, target).unwrap();
            let decoded = if bytes == 4 {
                let word = u32::from_le_bytes(code[8..12].try_into().unwrap());
                assert_eq!(word >> 26, 5);
                i64::from(((word << 6) as i32) >> 4)
            } else {
                assert_eq!(code[8], 0xe9);
                assert_eq!(&code[13..16], &[0x90; 3]);
                i64::from(i32::from_le_bytes(code[9..13].try_into().unwrap()))
            };
            assert_eq!(decoded, delta);
            assert_eq!(&code[..8], &[0xcc; 8]);
            assert_eq!(&code[8 + bytes as usize..], &[0xcc; 24][8 + bytes as usize..]);
        }
        for (address, target) in [
            (base + 1, source),
            (base, (source as i64 + bias + min - 4) as u64),
            (base, (source as i64 + bias + max + 4) as u64),
        ] {
            let mut code = [0xcc; 24];
            assert!(map.patch_exit(&mut code, address, target).is_err());
            assert_eq!(code, [0xcc; 24], "failure leaves unpublished bytes untouched");
        }
        assert!(map.patch_exit(&mut [0; 8], base, source).is_err());
        assert!(map.patch_exit(&mut [0; 24], u64::MAX, source).is_err());
    }
}

#[test]
fn branches_have_exact_bytes() {
    let mut code = [0u8; 16];
    exit_map(8, 8, None).patch_exit(&mut code, 0x1000, 0x1000).unwrap();
    assert_eq!(code[8..], [0xe9, 0xf3, 0xff, 0xff, 0xff, 0x90, 0x90, 0x90]);
    let mut code = [0u8; 16];
    exit_map(8, 4, None).patch_exit(&mut code, 0x1000, 0x1000).unwrap();
    assert_eq!(code[8..12], 0x17fffffeu32.to_le_bytes());
    assert_eq!(code[12..], [0; 4]);
    let mut code = [0u8; 16];
    exit_map(4, 4, None).patch_exit(&mut code, 0x1000, 0x1404).unwrap();
    assert_eq!(code[4..8], 0x14000100u32.to_le_bytes());
}

#[test]
fn every_fault_has_its_words() {
    let far = 1u64 << 40;
    for (offset, width, len, base, target, detail) in [
        (8, 8, 16, u64::MAX, 0, "address overflow"),
        (8, 8, 15, 0, 0, "patch outside code"),
        (4, 8, 16, 0, 0, "unaligned x86-64 patch"),
        (8, 8, 16, 0, far, "x86-64 target requires an island"),
        (2, 4, 16, 0, 0, "unaligned AArch64 branch"),
        (4, 4, 16, 0, 2, "unaligned AArch64 branch"),
        (4, 4, 16, 0, far, "AArch64 target requires an island"),
        (4, 0, 16, 0, 0, "not an exit patch"),
        (4, 5, 16, 0, 0, "not an exit patch"),
    ] {
        let mut code = vec![0xcc; len];
        let error = exit_map(offset, width, None).patch_exit(&mut code, base, target).unwrap_err();
        assert_eq!(error.message(), format!("Nixe exit patch: {detail}"));
        assert_eq!(code, vec![0xcc; len]);
    }
    let mut code = [0xcc; 16];
    let error = exit_map(8, 8, None).patch_poll(&mut code, 0, 0).unwrap_err();
    assert_eq!(error.message(), "Nixe exit has no poll checkpoint");
    assert_eq!(code, [0xcc; 16]);
}

#[test]
fn the_two_patches_of_an_exit_are_independent() {
    for width in [4u8, 8] {
        let cold = 8 + u32::from(width);
        let map = exit_map(8, width, Some(PollCheckpoint { offset: cold, completed: 3 }));
        let mut code = vec![0xcc; 32];
        map.patch_poll(&mut code, 0x8000, 0x8100).unwrap();
        let unit = cold as usize..cold as usize + usize::from(width);
        assert_eq!(code[8..cold as usize], vec![0xcc; usize::from(width)]);
        let patched = code[unit.clone()].to_vec();
        assert_ne!(patched, vec![0xcc; usize::from(width)]);
        map.patch_exit(&mut code, 0x8000, 0x8200).unwrap();
        assert_eq!(code[unit], patched);
    }
}

#[test]
fn moving_code_and_target_together_changes_nothing() {
    for (width, base, target) in [
        (8u8, 0x1000u64, 0x1234u64),
        (4, 0x1000, 0x1234),
        (8, 0x1001, 0x1234),
        (4, 0x1000, 0x1233),
        (8, 0x1000, 0x1_0000_1000),
        (4, 0x1000, 0x1_0000_1000),
    ] {
        let map = exit_map(8, width, None);
        let mut here = [0xcc; 24];
        let first = map.patch_exit(&mut here, base, target);
        for distance in [8u64, 0x7000, 1 << 40] {
            let mut there = [0xcc; 24];
            let second = map.patch_exit(&mut there, base + distance, target + distance);
            assert_eq!(first, second);
            assert_eq!(here, there);
        }
    }
}

#[test]
fn the_last_patch_of_a_unit_wins() {
    for width in [4u8, 8] {
        let map = exit_map(8, width, None);
        let mut twice = [0xcc; 24];
        map.patch_exit(&mut twice, 0x1000, 0x7ff_fff0).unwrap();
        map.patch_exit(&mut twice, 0x1000, 0x1010).unwrap();
        let mut once = [0xcc; 24];
        map.patch_exit(&mut once, 0x1000, 0x1010).unwrap();
        assert_eq!(twice, once);
        map.patch_exit(&mut twice, 0x1000, 0x1010).unwrap();
        assert_eq!(twice, once);
    }
}

#[test]
fn units_can_be_patched_at_any_offset() {
    let map = exit_map(8, 4, None);
    let mut code = [0xcc; 24];
    map.patch_at(16, &mut code, 0x1000, 0x1010).unwrap();
    assert_eq!(code[16..20], 0x14000000u32.to_le_bytes());
    assert_eq!(code[..16], [0xcc; 16]);
    let error = map.patch_at(24, &mut code, 0x1000, 0x1010).unwrap_err();
    assert_eq!(error.message(), "Nixe exit patch: patch outside code");
}
