use h3cell::{CellError, H3Cell};
use rand::Rng;

/// The structural validity rules of the index format: base cell in range,
/// populated digits in [0, 6], unused digits 7, no digit 1 under a pentagon.
fn assert_structurally_valid(cell: &H3Cell) {
    let res: u32 = cell.get_resolution();
    assert!(res <= 15);
    assert!(cell.get_base_cell() <= 121);
    let pent: bool = cell.is_base_cell_pentagon();
    for d in 1..=15u32 {
        let v: u32 = cell.get_digit(d).unwrap();
        if d <= res {
            assert!(v <= 6);
            if pent {
                assert_ne!(v, 1);
            }
        } else {
            assert_eq!(v, 7);
        }
    }
}

#[test]
fn check_resolution() {
    let h3: u64 = 0x8a2a1072b59ffff;
    let rust_h3 = H3Cell::new_unchecked(h3);
    let rust_res: i32 = rust_h3.get_resolution() as i32;
    assert_eq!(10, rust_res);
    assert_structurally_valid(&rust_h3);
}

#[test]
fn randomly_generated_h3cell_is_valid() {
    (0..=15u32).for_each(|res| {
        let generated = H3Cell::generate_random(res).expect("randomly h3 generation not possible");
        println!("res: {}, generated h3: {:x}", res, generated.as_u64());
        println!("{}", generated.pretty_print());
        assert_structurally_valid(&generated);
        assert_eq!(generated.get_resolution(), res);
    });
}

#[test]
fn randomly_generated_from_parent_is_valid() {
    let mut rng = rand::thread_rng();
    (0..=15u32).for_each(|res| {
        let parent = H3Cell::generate_random(res).unwrap();
        let child = H3Cell::generate_from_parent(parent, rng.gen_range(res..=15)).unwrap();
        println!("generated h3: {:x}", child.as_u64());
        println!("{}", child.pretty_print());
        assert_structurally_valid(&child);
        assert_eq!(child.get_parent(res).unwrap(), parent);
    })
}

#[test]
fn parent_at_own_resolution_is_identity() {
    for res in 0..=15u32 {
        let c = H3Cell::generate_random(res).unwrap();
        assert_eq!(c.get_parent(res).unwrap(), c);
    }
}

#[test]
fn parent_at_root_keeps_base_and_clears_digits() {
    let c = H3Cell::generate_random(12).unwrap();
    let root = c.get_parent(0).unwrap();
    assert_eq!(root.get_base_cell(), c.get_base_cell());
    assert_eq!(root.get_resolution(), 0);
    for d in 1..=15u32 {
        assert_eq!(root.get_digit(d).unwrap(), 7);
    }
}

#[test]
fn parent_lowers_resolution_and_keeps_coarse_digits() {
    let c = H3Cell::generate_random(10).unwrap();
    let p = c.get_parent(6).unwrap();
    assert_eq!(p.get_resolution(), 6);
    for d in 1..=6u32 {
        assert_eq!(p.get_digit(d).unwrap(), c.get_digit(d).unwrap());
    }
    for d in 7..=15u32 {
        assert_eq!(p.get_digit(d).unwrap(), 7);
    }
    assert_eq!(
        c.get_parent(11).unwrap_err(),
        CellError::InvalidParentResolution
    );
}

#[test]
fn generate_random_at_root() {
    let c = H3Cell::generate_random(0).unwrap();
    assert_eq!(c.get_resolution(), 0);
    assert!(c.get_base_cell() <= 121);
    for d in 1..=15u32 {
        assert_eq!(c.get_digit(d).unwrap(), 7);
    }
}

#[test]
fn generate_random_rejects_out_of_range_resolution() {
    assert_eq!(
        H3Cell::generate_random(16).unwrap_err(),
        CellError::InvalidResolution
    );
}

#[test]
fn generate_from_parent_roundtrip() {
    let parent = H3Cell::generate_random(4).unwrap();
    let child = H3Cell::generate_from_parent(parent, 9).unwrap();
    assert_eq!(child.get_resolution(), 9);
    assert_eq!(child.get_parent(4).unwrap(), parent);
    assert_eq!(H3Cell::generate_from_parent(parent, 4).unwrap(), parent);
    assert_eq!(
        H3Cell::generate_from_parent(child, 4).unwrap_err(),
        CellError::InvalidParentResolution
    );
    assert_eq!(
        H3Cell::generate_from_parent(parent, 16).unwrap_err(),
        CellError::InvalidResolution
    );
}

#[test]
fn pentagon_digit_one_is_refused() {
    let mut c = H3Cell::new_unchecked(0);
    c.reset();
    c.set_base_cell(4).unwrap();
    assert_eq!(c.set_digit(1, 1).unwrap_err(), CellError::PentagonDigitConflict);
}

#[test]
fn pentagon_cells_never_hold_digit_one() {
    for _ in 0..50 {
        let c = H3Cell::generate_random(15).unwrap();
        if c.is_base_cell_pentagon() {
            for d in 1..=15u32 {
                assert_ne!(c.get_digit(d).unwrap(), 1);
            }
        }
    }
}

#[test]
fn pentagon_table_membership() {
    let pentagons: [u32; 12] = [4, 14, 24, 38, 49, 58, 63, 72, 83, 97, 107, 117];
    for b in 0..=121u32 {
        let mut c = H3Cell::new_unchecked(0);
        c.reset();
        c.set_base_cell(b).unwrap();
        assert_eq!(c.is_base_cell_pentagon(), pentagons.contains(&b));
    }
}

#[test]
fn common_ancestor_of_cell_with_itself() {
    let c = H3Cell::generate_random(9).unwrap();
    assert_eq!(c.common_ancestor(&c), Some(9));
    assert!(c.common_ancestor_at(&c, 9));
    assert!(!c.common_ancestor_at(&c, 10));
}

#[test]
fn common_ancestor_differs_at_level_four() {
    let mut a = H3Cell::new_unchecked(0);
    a.reset();
    a.set_resolution(4).unwrap();
    a.set_base_cell(10).unwrap();
    a.set_digit(1, 2).unwrap();
    a.set_digit(2, 3).unwrap();
    a.set_digit(3, 4).unwrap();
    a.set_digit(4, 5).unwrap();
    let mut b = a;
    b.set_digit(4, 6).unwrap();
    assert_eq!(a.common_ancestor(&b), Some(3));
    assert!(a.common_ancestor_at(&b, 3));
    assert!(!a.common_ancestor_at(&b, 4));
}

#[test]
fn common_ancestor_of_different_base_cells() {
    let mut a = H3Cell::new_unchecked(0);
    a.reset();
    a.set_base_cell(10).unwrap();
    let mut b = H3Cell::new_unchecked(0);
    b.reset();
    b.set_base_cell(11).unwrap();
    assert_eq!(a.common_ancestor(&b), None);
    assert!(!a.common_ancestor_at(&b, 0));
}

#[test]
fn setters_reject_out_of_domain_arguments() {
    let mut c = H3Cell::new_unchecked(0);
    c.reset();
    assert_eq!(c.set_resolution(16).unwrap_err(), CellError::InvalidResolution);
    assert_eq!(c.set_base_cell(122).unwrap_err(), CellError::InvalidBaseCell);
    assert_eq!(c.set_digit(0, 0).unwrap_err(), CellError::InvalidDigitIndex);
    assert_eq!(c.set_digit(16, 0).unwrap_err(), CellError::InvalidDigitIndex);
    assert_eq!(c.set_digit(1, 7).unwrap_err(), CellError::InvalidDigitValue);
    assert_eq!(c.set_digit_unused(16).unwrap_err(), CellError::InvalidDigitIndex);
    assert_eq!(c.get_digit(0).unwrap_err(), CellError::InvalidDigitIndex);
    assert_eq!(c.as_u64(), 0x08001fffffffffff);
}

#[test]
fn reset_and_setters_build_known_word() {
    let mut c = H3Cell::new_unchecked(0xdead_beef_dead_beef);
    c.reset();
    assert_eq!(c.as_u64(), 0x08001fffffffffff);
    c.set_resolution(1).unwrap();
    c.set_base_cell(21).unwrap();
    c.set_digit(1, 0).unwrap();
    assert_eq!(c.get_resolution(), 1);
    assert_eq!(c.get_base_cell(), 21);
    assert_eq!(c.get_digit(1).unwrap(), 0);
    assert_eq!(c.get_digit(2).unwrap(), 7);
    c.set_digit_unused(1).unwrap();
    assert_eq!(c.get_digit(1).unwrap(), 7);
}

#[test]
fn valid_digits_lists_populated_levels() {
    let h3: u64 = 0x8a2a1072b59ffff;
    let c = H3Cell::new_unchecked(h3);
    assert_eq!(c.valid_digits(), vec![0, 2, 0, 3, 4, 5, 3, 2, 6, 3]);
    let mut root = H3Cell::new_unchecked(0);
    root.reset();
    assert_eq!(root.valid_digits(), Vec::<u32>::new());
}

#[test]
fn pretty_print_of_reset_cell() {
    let mut c = H3Cell::new_unchecked(0);
    c.reset();
    let mut expected = String::from("H3Cell {\n\tresolution: 0\n\tbase cell: 0\n");
    for d in 1..=15u32 {
        expected.push_str(&format!("\tdigit {}: 7\n", d));
    }
    expected.push_str("}\n");
    assert_eq!(c.pretty_print(), expected);
}

#[test]
fn from_validated_follows_the_oracle_verdict() {
    let ok = H3Cell::from_validated(0x8a2a1072b59ffff, true).unwrap();
    assert_eq!(ok.as_u64(), 0x8a2a1072b59ffff);
    let err = H3Cell::from_validated(0x8a2a1072b59ffff, false).unwrap_err();
    assert_eq!(err, h3cell::TryFromError::InvalidH3Index);
}

#[test]
fn common_ancestor_compares_up_to_smaller_resolution() {
    let mut a = H3Cell::new_unchecked(0);
    a.reset();
    a.set_resolution(4).unwrap();
    a.set_base_cell(10).unwrap();
    a.set_digit(1, 2).unwrap();
    a.set_digit(2, 3).unwrap();
    a.set_digit(3, 4).unwrap();
    a.set_digit(4, 5).unwrap();
    let b = a.get_parent(2).unwrap();
    assert_eq!(a.common_ancestor(&b), Some(2));
    assert_eq!(b.common_ancestor(&a), Some(2));
}
