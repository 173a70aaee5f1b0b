//! The cell index value type and its hierarchy operations.
//!
//! A cell index is one 64-bit word. Counted from the most-significant end it
//! packs: one reserved bit (always 0), a 4-bit mode (always 1), three
//! reserved bits (always 0), a 4-bit resolution, a 7-bit base cell, and
//! fifteen 3-bit child-selection digits, one per resolution level. Digits at
//! levels beyond the resolution hold the unused sentinel 7. Twelve of the
//! 122 base cells are pentagons; a cell rooted at one of them never carries
//! digit value 1 at a populated level.

use rand::Rng;
use vstd::prelude::*;
use vstd::string::StringExecFns;
use crate::bitfield::{
    get_bits, lemma_set_then_get_other, lemma_set_then_get_same, read_bits, write_bits,
};
use crate::errors::{CellError, TryFromError};

verus! {

/// The mathematical reading of a cell word: each packed field as a plain
/// number. `digits[i]` is the child-selection digit of resolution level
/// `i + 1`; the sequence always has 15 entries.
#[verifier::ext_equal]
pub struct CellView {
    pub reserved_high: u32,
    pub mode: u32,
    pub reserved_low: u32,
    pub res: u32,
    pub base: u32,
    pub digits: Seq<u32>,
}

/// Least-significant-bit position of the digit of level `d` (1 to 15).
pub open spec fn digit_lsb(d: int) -> u64
    recommends
        1 <= d <= 15,
{
    (45 - 3 * d) as u64
}

/// The view of a raw 64-bit cell word.
pub open spec fn view_of(w: u64) -> CellView {
    CellView {
        reserved_high: get_bits(w, 63, 1) as u32,
        mode: get_bits(w, 59, 4) as u32,
        reserved_low: get_bits(w, 56, 3) as u32,
        res: get_bits(w, 52, 4) as u32,
        base: get_bits(w, 45, 7) as u32,
        digits: Seq::new(15, |i: int| get_bits(w, digit_lsb(i + 1), 3) as u32),
    }
}

/// The twelve base cells that are pentagons.
pub open spec fn is_pentagon(b: u32) -> bool {
    b == 4 || b == 14 || b == 24 || b == 38 || b == 49 || b == 58 || b == 63 || b == 72 || b == 83
        || b == 97 || b == 107 || b == 117
}

/// The data-model invariant: reserved bits clear, mode 1, base cell in
/// range, populated digits in [0, 6], digits beyond the resolution equal to
/// the unused sentinel 7, and no populated digit 1 under a pentagon base.
pub open spec fn wf_view(v: CellView) -> bool {
    &&& v.reserved_high == 0
    &&& v.mode == 1
    &&& v.reserved_low == 0
    &&& v.res <= 15
    &&& v.base <= 121
    &&& v.digits.len() == 15
    &&& forall|i: int| 0 <= i < v.res ==> #[trigger] v.digits[i] <= 6
    &&& forall|i: int| v.res <= i < 15 ==> #[trigger] v.digits[i] == 7
    &&& is_pentagon(v.base) ==> forall|i: int| 0 <= i < v.res ==> #[trigger] v.digits[i] != 1
}

/// A 64-bit hierarchical geospatial cell index.
#[derive(Clone, Copy, Debug, PartialEq, Eq, Hash, Structural)]
pub struct H3Cell {
    w: u64,
}

impl View for H3Cell {
    type V = CellView;

    open spec fn view(&self) -> CellView {
        view_of(self.word())
    }
}

impl H3Cell {
    /// The raw 64-bit word of this index.
    pub closed spec fn word(&self) -> u64 {
        self.w
    }

    /// The data-model invariant, on this cell's view.
    pub open spec fn well_formed(&self) -> bool {
        wf_view(self@)
    }

    /// The trusted construction path: the caller already guarantees that
    /// `raw` is a valid index (for instance because the external geometry
    /// oracle produced it). No check of any kind is made here; the
    /// correctness obligation lies entirely with the caller.
    pub fn new_unchecked(raw: u64) -> (r: H3Cell)
        ensures
            r.word() == raw,
    {
        H3Cell { w: raw }
    }

    /// The validated construction path: `oracle_valid` must be the external
    /// geometry oracle's verdict on `raw`. A rejected value never becomes a
    /// cell.
    pub fn from_validated(raw: u64, oracle_valid: bool) -> (r: Result<H3Cell, TryFromError>)
        ensures
            oracle_valid ==> r is Ok && (r->Ok_0).word() == raw,
            !oracle_valid ==> r == Err::<H3Cell, TryFromError>(TryFromError::InvalidH3Index),
    {
        if oracle_valid {
            Ok(H3Cell { w: raw })
        } else {
            Err(TryFromError::InvalidH3Index)
        }
    }

    /// The raw 64-bit value of this index.
    pub fn as_u64(&self) -> (r: u64)
        ensures
            r == self.word(),
    {
        self.w
    }

    /// Reads the resolution field. Total: the field is 4 bits wide, so the
    /// result is always in [0, 15].
    pub fn get_resolution(&self) -> (r: u32)
        ensures
            r == self@.res,
            r <= 15,
    {
        let v = read_bits(self.w, 52, 4);
        proof {
            assert(v < (1u64 << 4) ==> v <= 15) by (bit_vector);
        }
        v as u32
    }

    /// Reads the base-cell field. Total: the field is 7 bits wide, so the
    /// result is always in [0, 127]; on a well-formed cell it is in [0, 121].
    pub fn get_base_cell(&self) -> (r: u32)
        ensures
            r == self@.base,
            r <= 127,
    {
        let v = read_bits(self.w, 45, 7);
        proof {
            assert(v < (1u64 << 7) ==> v <= 127) by (bit_vector);
        }
        v as u32
    }

    /// Reads the digit of level `d` without an index check.
    fn digit_raw(&self, d: u32) -> (r: u32)
        requires
            1 <= d <= 15,
        ensures
            r == self@.digits[d - 1],
            r <= 7,
    {
        let v = read_bits(self.w, 45 - 3 * (d as u64), 3);
        proof {
            assert(v < (1u64 << 3) ==> v <= 7) by (bit_vector);
        }
        v as u32
    }

    /// Reads the digit of level `digit`; the level must be in [1, 15].
    pub fn get_digit(&self, digit: u32) -> (r: Result<u32, CellError>)
        ensures
            1 <= digit <= 15 ==> r == Ok::<u32, CellError>(self@.digits[digit - 1]),
            !(1 <= digit <= 15) ==> r == Err::<u32, CellError>(CellError::InvalidDigitIndex),
    {
        if digit < 1 || digit > 15 {
            Err(CellError::InvalidDigitIndex)
        } else {
            Ok(self.digit_raw(digit))
        }
    }

    /// Writes the resolution field without a range check on the cell state.
    fn set_res_raw(&mut self, r: u32)
        requires
            r <= 15,
        ensures
            final(self)@ == (CellView { res: r, ..old(self)@ }),
    {
        proof {
            assert(r <= 15 ==> (r as u64) < (1u64 << 4)) by (bit_vector);
        }
        self.w = write_bits(self.w, 52, 4, r as u64);
        proof {
            let x = old(self).w;
            let y = self.w;
            lemma_set_then_get_same(x, 52, 4, r as u64);
            lemma_set_then_get_other(x, 52, 4, r as u64, 63, 1);
            lemma_set_then_get_other(x, 52, 4, r as u64, 59, 4);
            lemma_set_then_get_other(x, 52, 4, r as u64, 56, 3);
            lemma_set_then_get_other(x, 52, 4, r as u64, 45, 7);
            assert forall|i: int| 0 <= i < 15 implies #[trigger] view_of(y).digits[i] == view_of(
                x,
            ).digits[i] by {
                lemma_set_then_get_other(x, 52, 4, r as u64, digit_lsb(i + 1), 3);
            }
            assert(view_of(y).digits =~= view_of(x).digits);
            assert(self@ =~= (CellView { res: r, ..old(self)@ }));
        }
    }

    /// Writes the base-cell field without a range check on the cell state.
    fn set_base_raw(&mut self, b: u32)
        requires
            b <= 121,
        ensures
            final(self)@ == (CellView { base: b, ..old(self)@ }),
    {
        proof {
            assert(b <= 121 ==> (b as u64) < (1u64 << 7)) by (bit_vector);
        }
        self.w = write_bits(self.w, 45, 7, b as u64);
        proof {
            let x = old(self).w;
            let y = self.w;
            lemma_set_then_get_same(x, 45, 7, b as u64);
            lemma_set_then_get_other(x, 45, 7, b as u64, 63, 1);
            lemma_set_then_get_other(x, 45, 7, b as u64, 59, 4);
            lemma_set_then_get_other(x, 45, 7, b as u64, 56, 3);
            lemma_set_then_get_other(x, 45, 7, b as u64, 52, 4);
            assert forall|i: int| 0 <= i < 15 implies #[trigger] view_of(y).digits[i] == view_of(
                x,
            ).digits[i] by {
                lemma_set_then_get_other(x, 45, 7, b as u64, digit_lsb(i + 1), 3);
            }
            assert(view_of(y).digits =~= view_of(x).digits);
            assert(self@ =~= (CellView { base: b, ..old(self)@ }));
        }
    }

    /// Writes the digit of level `d` without the domain checks.
    fn set_digit_raw(&mut self, d: u32, v: u32)
        requires
            1 <= d <= 15,
            v <= 7,
        ensures
            final(self)@ == (CellView { digits: old(self)@.digits.update(d - 1, v), ..old(self)@ }),
    {
        proof {
            assert(v <= 7 ==> (v as u64) < (1u64 << 3)) by (bit_vector);
        }
        let lsb: u64 = 45 - 3 * (d as u64);
        self.w = write_bits(self.w, lsb, 3, v as u64);
        proof {
            let x = old(self).w;
            let y = self.w;
            lemma_set_then_get_other(x, lsb, 3, v as u64, 63, 1);
            lemma_set_then_get_other(x, lsb, 3, v as u64, 59, 4);
            lemma_set_then_get_other(x, lsb, 3, v as u64, 56, 3);
            lemma_set_then_get_other(x, lsb, 3, v as u64, 52, 4);
            lemma_set_then_get_other(x, lsb, 3, v as u64, 45, 7);
            assert forall|i: int| 0 <= i < 15 implies #[trigger] view_of(y).digits[i] == (if i == d
                - 1 {
                v
            } else {
                view_of(x).digits[i]
            }) by {
                if i == d - 1 {
                    lemma_set_then_get_same(x, lsb, 3, v as u64);
                } else {
                    lemma_set_then_get_other(x, lsb, 3, v as u64, digit_lsb(i + 1), 3);
                }
            }
            assert(view_of(y).digits =~= view_of(x).digits.update(d - 1, v));
            assert(self@ =~= (CellView { digits: old(self)@.digits.update(d - 1, v), ..old(self)@ }));
        }
    }

    /// Sets the resolution; the argument must be in [0, 15].
    pub fn set_resolution(&mut self, res: u32) -> (r: Result<(), CellError>)
        ensures
            res <= 15 ==> r == Ok::<(), CellError>(()) && final(self)@ == (CellView {
                res,
                ..old(self)@
            }),
            res > 15 ==> r == Err::<(), CellError>(CellError::InvalidResolution) && *final(self)
                == *old(self),
    {
        if res > 15 {
            Err(CellError::InvalidResolution)
        } else {
            self.set_res_raw(res);
            Ok(())
        }
    }

    /// Sets the base cell; the argument must be in [0, 121].
    pub fn set_base_cell(&mut self, bc: u32) -> (r: Result<(), CellError>)
        ensures
            bc <= 121 ==> r == Ok::<(), CellError>(()) && final(self)@ == (CellView {
                base: bc,
                ..old(self)@
            }),
            bc > 121 ==> r == Err::<(), CellError>(CellError::InvalidBaseCell) && *final(self)
                == *old(self),
    {
        if bc > 121 {
            Err(CellError::InvalidBaseCell)
        } else {
            self.set_base_raw(bc);
            Ok(())
        }
    }

    /// Sets the digit of level `digit` to `val`. The level must be in
    /// [1, 15] and the value in [0, 6]; on a pentagon-based cell the value 1
    /// is structurally skipped and is refused.
    pub fn set_digit(&mut self, digit: u32, val: u32) -> (r: Result<(), CellError>)
        ensures
            !(1 <= digit <= 15) ==> r == Err::<(), CellError>(CellError::InvalidDigitIndex)
                && *final(self) == *old(self),
            1 <= digit <= 15 && val > 6 ==> r == Err::<(), CellError>(CellError::InvalidDigitValue)
                && *final(self) == *old(self),
            1 <= digit <= 15 && val <= 6 && is_pentagon(old(self)@.base) && val == 1 ==> r
                == Err::<(), CellError>(CellError::PentagonDigitConflict) && *final(self) == *old(
                self,
            ),
            1 <= digit <= 15 && val <= 6 && !(is_pentagon(old(self)@.base) && val == 1) ==> r
                == Ok::<(), CellError>(()) && final(self)@ == (CellView {
                digits: old(self)@.digits.update(digit - 1, val),
                ..old(self)@
            }),
    {
        if digit < 1 || digit > 15 {
            Err(CellError::InvalidDigitIndex)
        } else if val > 6 {
            Err(CellError::InvalidDigitValue)
        } else if self.is_base_cell_pentagon() && val == 1 {
            Err(CellError::PentagonDigitConflict)
        } else {
            self.set_digit_raw(digit, val);
            Ok(())
        }
    }

    /// Sets the digit of level `digit` to the unused sentinel 7. The level
    /// must be in [1, 15].
    pub fn set_digit_unused(&mut self, digit: u32) -> (r: Result<(), CellError>)
        ensures
            !(1 <= digit <= 15) ==> r == Err::<(), CellError>(CellError::InvalidDigitIndex)
                && *final(self) == *old(self),
            1 <= digit <= 15 ==> r == Ok::<(), CellError>(()) && final(self)@ == (CellView {
                digits: old(self)@.digits.update(digit - 1, 7u32),
                ..old(self)@
            }),
    {
        if digit < 1 || digit > 15 {
            Err(CellError::InvalidDigitIndex)
        } else {
            self.set_digit_raw(digit, 7);
            Ok(())
        }
    }

    /// True iff this cell's base cell is one of the twelve pentagons. The
    /// sorted pentagon table is probed by binary search.
    pub fn is_base_cell_pentagon(&self) -> (r: bool)
        ensures
            r == is_pentagon(self@.base),
    {
        let pentagons: [u32; 12] = [4, 14, 24, 38, 49, 58, 63, 72, 83, 97, 107, 117];
        let bc = self.get_base_cell();
        let mut lo: usize = 0;
        let mut hi: usize = 12;
        while lo < hi
            invariant
                lo <= hi <= 12,
                bc == self@.base,
                pentagons@ =~= seq![4u32, 14, 24, 38, 49, 58, 63, 72, 83, 97, 107, 117],
                forall|i: int| 0 <= i < lo ==> #[trigger] pentagons@[i] < bc,
                forall|i: int| hi <= i < 12 ==> bc < #[trigger] pentagons@[i],
            decreases hi - lo,
        {
            let mid = lo + (hi - lo) / 2;
            let p = pentagons[mid];
            if p == bc {
                return true;
            } else if p < bc {
                lo = mid + 1;
            } else {
                hi = mid;
            }
        }
        false
    }

    /// Derives the ancestor of this cell at resolution `res`: the same base
    /// cell and root path, with every digit at a level beyond `res` dropped
    /// to the unused sentinel. Fails unless `res` is at most the cell's own
    /// resolution; at the cell's own resolution the cell itself is returned.
    pub fn get_parent(&self, res: u32) -> (r: Result<H3Cell, CellError>)
        requires
            self.well_formed(),
        ensures
            res > self@.res ==> r == Err::<H3Cell, CellError>(CellError::InvalidParentResolution),
            res <= self@.res ==> r is Ok && (r->Ok_0)@ == parent_view(self@, res) && (
            r->Ok_0).well_formed(),
            res == self@.res ==> r == Ok::<H3Cell, CellError>(*self),
    {
        let my_res = self.get_resolution();
        if res > my_res {
            return Err(CellError::InvalidParentResolution);
        }
        if res == my_res {
            proof {
                lemma_parent_view_identity(self@);
            }
            return Ok(*self);
        }
        let mut parent = *self;
        parent.set_res_raw(res);
        let mut d: u32 = res + 1;
        while d <= my_res
            invariant
                res < my_res <= 15,
                res + 1 <= d <= my_res + 1,
                my_res == self@.res,
                self.well_formed(),
                parent@.reserved_high == self@.reserved_high,
                parent@.mode == self@.mode,
                parent@.reserved_low == self@.reserved_low,
                parent@.res == res,
                parent@.base == self@.base,
                parent@.digits.len() == 15,
                forall|i: int|
                    0 <= i < 15 && !(res <= i < d - 1) ==> #[trigger] parent@.digits[i]
                        == self@.digits[i],
                forall|i: int| res <= i < d - 1 ==> #[trigger] parent@.digits[i] == 7,
            decreases my_res + 1 - d,
        {
            parent.set_digit_raw(d, 7);
            d += 1;
        }
        proof {
            assert(parent@.digits =~= parent_view(self@, res).digits);
            assert(parent@ =~= parent_view(self@, res));
        }
        Ok(parent)
    }

    /// The ordered digits of the populated levels 1 to `resolution`; levels
    /// beyond the resolution hold only the unused sentinel and are excluded.
    pub fn valid_digits(&self) -> (r: Vec<u32>)
        ensures
            r@ == self@.digits.subrange(0, self@.res as int),
    {
        let res = self.get_resolution();
        let mut out: Vec<u32> = Vec::new();
        let mut d: u32 = 1;
        while d <= res
            invariant
                1 <= d <= res + 1,
                res == self@.res <= 15,
                out@.len() == d - 1,
                forall|i: int| 0 <= i < d - 1 ==> #[trigger] out@[i] == self@.digits[i],
            decreases res + 1 - d,
        {
            let v = self.digit_raw(d);
            out.push(v);
            d += 1;
        }
        proof {
            assert(out@ =~= self@.digits.subrange(0, self@.res as int));
        }
        out
    }

    /// The deepest level at which this cell and `other` still agree
    /// digit-for-digit, or nothing when their base cells differ. A mismatch
    /// already at level 1 yields level 0: only the base cell is shared.
    pub fn common_ancestor(&self, other: &H3Cell) -> (r: Option<u32>)
        ensures
            r == common_ancestor_spec(self@, other@),
    {
        let res_1 = self.get_resolution();
        let res_2 = other.get_resolution();
        let res_to_check_for = if res_1 > res_2 {
            res_2
        } else {
            res_1
        };
        if self.get_base_cell() == other.get_base_cell() {
            let mut i: u32 = 1;
            while i <= res_to_check_for
                invariant
                    1 <= i <= res_to_check_for + 1,
                    res_to_check_for == min_res(self@, other@),
                    res_to_check_for <= 15,
                    self@.base == other@.base,
                    forall|j: int| 0 <= j < i - 1 ==> #[trigger] self@.digits[j] == other@.digits[j],
                decreases res_to_check_for + 1 - i,
            {
                if self.digit_raw(i) != other.digit_raw(i) {
                    proof {
                        lemma_first_diff_char(self@, other@, min_res(self@, other@), i - 1);
                    }
                    return Some(i - 1);
                }
                i += 1;
            }
            proof {
                lemma_first_diff_char(
                    self@,
                    other@,
                    min_res(self@, other@),
                    min_res(self@, other@),
                );
            }
            Some(res_to_check_for)
        } else {
            None
        }
    }

    /// True iff the two cells share an ancestor at a resolution of at least
    /// `res`: same base cell, and the first `res` digits agree.
    pub fn common_ancestor_at(&self, other: &H3Cell, res: u32) -> (r: bool)
        ensures
            r == match common_ancestor_spec(self@, other@) {
                Some(a) => a >= res,
                None => false,
            },
    {
        let ancestry = self.common_ancestor(other);
        match ancestry {
            Some(a) => a >= res,
            None => false,
        }
    }

    /// Builds a fresh cell at resolution `res` with a uniformly random base
    /// cell and uniformly random digits at the populated levels: each digit
    /// is drawn from the seven values [0, 6], or from the six values
    /// {0, 2, 3, 4, 5, 6} when the chosen base cell is a pentagon. Fails
    /// exactly when `res` is outside [0, 15].
    pub fn generate_random(res: u32) -> (r: Result<H3Cell, CellError>)
        ensures
            res > 15 ==> r == Err::<H3Cell, CellError>(CellError::InvalidResolution),
            res <= 15 ==> r is Ok && (r->Ok_0).well_formed() && (r->Ok_0)@.res == res,
    {
        let mut s = H3Cell::new_unchecked(0);
        s.reset();
        if res > 15 {
            return Err(CellError::InvalidResolution);
        }
        s.set_res_raw(res);
        let bc = random_in_range(0, 121);
        s.set_base_raw(bc);
        let pent = s.is_base_cell_pentagon();
        let mut digit: u32 = 1;
        while digit <= res
            invariant
                1 <= digit <= res + 1,
                res <= 15,
                s@.reserved_high == 0,
                s@.mode == 1,
                s@.reserved_low == 0,
                s@.res == res,
                s@.base <= 121,
                pent == is_pentagon(s@.base),
                s@.digits.len() == 15,
                forall|i: int| 0 <= i < digit - 1 ==> #[trigger] s@.digits[i] <= 6,
                forall|i: int| digit - 1 <= i < 15 ==> #[trigger] s@.digits[i] == 7,
                pent ==> forall|i: int| 0 <= i < digit - 1 ==> #[trigger] s@.digits[i] != 1,
            decreases res + 1 - digit,
        {
            let val: u32 = if pent {
                let t = random_in_range(0, 5);
                if t == 1 {
                    6
                } else {
                    t
                }
            } else {
                random_in_range(0, 6)
            };
            s.set_digit_raw(digit, val);
            digit += 1;
        }
        Ok(s)
    }

    /// Builds a random descendant of `parent` at resolution `res`: all of
    /// `parent`'s bits are kept and only the newly exposed digit levels are
    /// filled, with the same pentagon-aware draw as `generate_random`. At
    /// `parent`'s own resolution `parent` itself is returned; a resolution
    /// below `parent`'s or above 15 is refused.
    pub fn generate_from_parent(parent: H3Cell, res: u32) -> (r: Result<H3Cell, CellError>)
        requires
            parent.well_formed(),
        ensures
            res < parent@.res ==> r == Err::<H3Cell, CellError>(
                CellError::InvalidParentResolution,
            ),
            res == parent@.res ==> r == Ok::<H3Cell, CellError>(parent),
            parent@.res < res && res > 15 ==> r == Err::<H3Cell, CellError>(
                CellError::InvalidResolution,
            ),
            parent@.res < res <= 15 ==> r is Ok && (r->Ok_0).well_formed() && extends(
                (r->Ok_0)@,
                parent@,
                res,
            ),
    {
        let parent_res = parent.get_resolution();
        if parent_res > res {
            return Err(CellError::InvalidParentResolution);
        }
        if parent_res == res {
            return Ok(parent);
        }
        if res > 15 {
            return Err(CellError::InvalidResolution);
        }
        let mut s = parent;
        s.set_res_raw(res);
        let pent = s.is_base_cell_pentagon();
        let mut digit: u32 = parent_res + 1;
        while digit <= res
            invariant
                parent.well_formed(),
                parent_res == parent@.res,
                parent_res < res <= 15,
                parent_res + 1 <= digit <= res + 1,
                s@.reserved_high == 0,
                s@.mode == 1,
                s@.reserved_low == 0,
                s@.res == res,
                s@.base == parent@.base,
                pent == is_pentagon(s@.base),
                s@.digits.len() == 15,
                forall|i: int| 0 <= i < parent_res ==> #[trigger] s@.digits[i] == parent@.digits[i],
                forall|i: int| parent_res <= i < digit - 1 ==> #[trigger] s@.digits[i] <= 6,
                forall|i: int| digit - 1 <= i < 15 ==> #[trigger] s@.digits[i] == 7,
                pent ==> forall|i: int| parent_res <= i < digit - 1 ==> #[trigger] s@.digits[i]
                    != 1,
            decreases res + 1 - digit,
        {
            let val: u32 = if pent {
                let t = random_in_range(0, 5);
                if t == 1 {
                    6
                } else {
                    t
                }
            } else {
                random_in_range(0, 6)
            };
            s.set_digit_raw(digit, val);
            digit += 1;
        }
        Ok(s)
    }

    /// A multi-line human-readable dump of the resolution, the base cell
    /// and all fifteen digit slots, the unused ones included. Diagnostic
    /// only: no operation depends on it.
    pub fn pretty_print(&self) -> (r: String)
        ensures
            r@ == pretty_of(self@),
    {
        let mut out = String::new();
        out.append("H3Cell {\n");
        out.append("\tresolution: ");
        push_decimal(&mut out, self.get_resolution());
        out.append("\n");
        out.append("\tbase cell: ");
        push_decimal(&mut out, self.get_base_cell());
        out.append("\n");
        proof {
            assert(out@ =~= pretty_head(self@) + pretty_digit_lines(self@, 0));
        }
        let mut i: u32 = 1;
        while i <= 15
            invariant
                1 <= i <= 16,
                out@ == pretty_head(self@) + pretty_digit_lines(self@, i - 1),
            decreases 16 - i,
        {
            out.append("\tdigit ");
            push_decimal(&mut out, i);
            out.append(": ");
            push_decimal(&mut out, self.digit_raw(i));
            out.append("\n");
            proof {
                assert(out@ =~= pretty_head(self@) + pretty_digit_lines(self@, i as int));
            }
            i += 1;
        }
        out.append("}\n");
        proof {
            assert(out@ =~= pretty_of(self@));
        }
        out
    }

    /// The word whose every field is in its reset state.
    pub open spec fn reset_view() -> CellView {
        CellView {
            reserved_high: 0,
            mode: 1,
            reserved_low: 0,
            res: 0,
            base: 0,
            digits: Seq::new(15, |i: int| 7u32),
        }
    }

    /// Clears the reserved bits, sets mode 1, resolution 0, base cell 0 and
    /// all fifteen digits to the unused sentinel. Always succeeds, whatever
    /// state the cell was in.
    pub fn reset(&mut self)
        ensures
            final(self)@ == H3Cell::reset_view(),
            final(self).well_formed(),
    {
        self.w = 0x0800_1FFF_FFFF_FFFFu64;
        proof {
            lemma_reset_word();
        }
    }
}

/// The decimal digit character of `n` (0 to 9).
pub open spec fn dec_char(n: int) -> char
    recommends
        0 <= n <= 9,
{
    if n == 0 {
        '0'
    } else if n == 1 {
        '1'
    } else if n == 2 {
        '2'
    } else if n == 3 {
        '3'
    } else if n == 4 {
        '4'
    } else if n == 5 {
        '5'
    } else if n == 6 {
        '6'
    } else if n == 7 {
        '7'
    } else if n == 8 {
        '8'
    } else {
        '9'
    }
}

/// The decimal text of `n`, most significant digit first.
pub open spec fn dec_str(n: int) -> Seq<char>
    recommends
        n >= 0,
    decreases n,
{
    if n <= 9 {
        seq![dec_char(n)]
    } else {
        dec_str(n / 10).push(dec_char(n % 10))
    }
}

/// Appends the decimal text of `n` to `out`.
fn push_decimal(out: &mut String, n: u32)
    ensures
        final(out)@ == old(out)@ + dec_str(n as int),
    decreases n,
{
    if n > 9 {
        push_decimal(out, n / 10);
    }
    let d = n % 10;
    let c: &str = if d == 0 {
        "0"
    } else if d == 1 {
        "1"
    } else if d == 2 {
        "2"
    } else if d == 3 {
        "3"
    } else if d == 4 {
        "4"
    } else if d == 5 {
        "5"
    } else if d == 6 {
        "6"
    } else if d == 7 {
        "7"
    } else if d == 8 {
        "8"
    } else {
        "9"
    };
    proof {
        reveal_strlit("0");
        reveal_strlit("1");
        reveal_strlit("2");
        reveal_strlit("3");
        reveal_strlit("4");
        reveal_strlit("5");
        reveal_strlit("6");
        reveal_strlit("7");
        reveal_strlit("8");
        reveal_strlit("9");
        assert(c@ =~= seq![dec_char(n as int % 10)]);
    }
    out.append(c);
    proof {
        if n <= 9 {
            assert(out@ =~= old(out)@ + dec_str(n as int));
        } else {
            assert(out@ =~= old(out)@ + dec_str(n as int));
        }
    }
}

/// One line of the diagnostic dump: the digit of level `d`.
pub open spec fn pretty_digit_line(v: CellView, d: int) -> Seq<char>
    recommends
        1 <= d <= 15,
{
    "\tdigit "@ + dec_str(d) + ": "@ + dec_str(v.digits[d - 1] as int) + "\n"@
}

/// The digit lines of the diagnostic dump, for levels 1 to `d`.
pub open spec fn pretty_digit_lines(v: CellView, d: int) -> Seq<char>
    decreases d,
{
    if d <= 0 {
        Seq::empty()
    } else {
        pretty_digit_lines(v, d - 1) + pretty_digit_line(v, d)
    }
}

/// The head of the diagnostic dump: the resolution and base cell lines.
pub open spec fn pretty_head(v: CellView) -> Seq<char> {
    "H3Cell {\n"@ + "\tresolution: "@ + dec_str(v.res as int) + "\n"@ + "\tbase cell: "@ + dec_str(
        v.base as int,
    ) + "\n"@
}

/// The full diagnostic dump of a cell: resolution, base cell, and all
/// fifteen digit slots, the unused ones included.
pub open spec fn pretty_of(v: CellView) -> Seq<char> {
    pretty_head(v) + pretty_digit_lines(v, 15) + "}\n"@
}

/// `c` is a descendant of `p` at resolution `res`: the same base cell, and
/// all of `p`'s populated digit levels carried over unchanged.
pub open spec fn extends(c: CellView, p: CellView, res: u32) -> bool {
    &&& c.res == res
    &&& c.base == p.base
    &&& forall|i: int| 0 <= i < p.res ==> #[trigger] c.digits[i] == p.digits[i]
}

/// Relies on `rand::Rng::gen_range` on `rand::thread_rng()` with an
/// inclusive range: the drawn value lies in `[lo, hi]`; an empty range is
/// refused by `gen_range`, so it is excluded here. Nothing else is assumed
/// of the draw.
#[verifier::external_body]
fn random_in_range(lo: u32, hi: u32) -> (r: u32)
    requires
        lo <= hi,
    ensures
        lo <= r <= hi,
{
    rand::thread_rng().gen_range(lo..=hi)
}

/// The view of the ancestor of a cell with view `v` at resolution `r`: the
/// resolution is lowered to `r`, digits at levels up to `r` are kept, every
/// finer digit is dropped to the unused sentinel, and all other fields are
/// untouched.
pub open spec fn parent_view(v: CellView, r: u32) -> CellView {
    CellView {
        res: r,
        digits: Seq::new(
            15,
            |i: int|
                if i < r {
                    v.digits[i]
                } else {
                    7u32
                },
        ),
        ..v
    }
}

/// The smaller of the two cells' resolutions.
pub open spec fn min_res(a: CellView, b: CellView) -> int {
    if a.res <= b.res {
        a.res as int
    } else {
        b.res as int
    }
}

/// The index of the first digit position in `[i, m)` where `a` and `b`
/// differ, or `m` when they agree on all of them.
pub open spec fn first_diff(a: CellView, b: CellView, i: int, m: int) -> int
    decreases m - i,
{
    if i >= m {
        m
    } else if a.digits[i] != b.digits[i] {
        i
    } else {
        first_diff(a, b, i + 1, m)
    }
}

/// The common-ancestor level of two cells: nothing when the base cells
/// differ, else the number of leading digit levels on which the two agree,
/// compared up to the smaller of the two resolutions.
pub open spec fn common_ancestor_spec(a: CellView, b: CellView) -> Option<u32> {
    if a.base != b.base {
        None
    } else {
        Some(first_diff(a, b, 0, min_res(a, b)) as u32)
    }
}

/// `first_diff` from position `i` is pinned by agreement on `[i, k)` and a
/// mismatch (or the end of the compared range) at `k`.
proof fn lemma_first_diff_char_from(a: CellView, b: CellView, m: int, k: int, i: int)
    requires
        0 <= i <= k <= m,
        forall|j: int| i <= j < k ==> #[trigger] a.digits[j] == b.digits[j],
        k == m || a.digits[k] != b.digits[k],
    ensures
        first_diff(a, b, i, m) == k,
    decreases k - i,
{
    if i < k {
        lemma_first_diff_char_from(a, b, m, k, i + 1);
    }
}

/// `first_diff` over the whole compared range is pinned by agreement on
/// `[0, k)` and a mismatch (or the end of the range) at `k`.
proof fn lemma_first_diff_char(a: CellView, b: CellView, m: int, k: int)
    requires
        0 <= k <= m,
        forall|j: int| 0 <= j < k ==> #[trigger] a.digits[j] == b.digits[j],
        k == m || a.digits[k] != b.digits[k],
    ensures
        first_diff(a, b, 0, m) == k,
{
    lemma_first_diff_char_from(a, b, m, k, 0);
}

/// On a well-formed cell, taking the ancestor at the cell's own resolution
/// changes nothing: every finer digit already holds the unused sentinel.
pub proof fn lemma_parent_view_identity(v: CellView)
    requires
        wf_view(v),
    ensures
        parent_view(v, v.res) == v,
{
    assert(parent_view(v, v.res).digits =~= v.digits);
    assert(parent_view(v, v.res) =~= v);
}

/// The ancestor at resolution 0 keeps the base cell and holds the unused
/// sentinel in all fifteen digit slots.
pub proof fn lemma_parent_to_root(v: CellView)
    requires
        wf_view(v),
    ensures
        parent_view(v, 0).base == v.base,
        forall|i: int| 0 <= i < 15 ==> #[trigger] parent_view(v, 0).digits[i] == 7,
{
}

/// The ancestor at resolution `r` has resolution `r`, holds the unused
/// sentinel at every level beyond `r`, and keeps every digit at a level up
/// to `r` unchanged.
pub proof fn lemma_parent_fields(v: CellView, r: u32)
    requires
        wf_view(v),
        r <= v.res,
    ensures
        parent_view(v, r).res == r,
        forall|i: int| r <= i < 15 ==> #[trigger] parent_view(v, r).digits[i] == 7,
        forall|i: int| 0 <= i < r ==> #[trigger] parent_view(v, r).digits[i] == v.digits[i],
{
}

/// On a well-formed pentagon-based cell no populated digit equals 1.
pub proof fn lemma_pentagon_digits(v: CellView, i: int)
    requires
        wf_view(v),
        is_pentagon(v.base),
        0 <= i < v.res,
    ensures
        v.digits[i] != 1,
{
}

/// A cell and itself share their full resolution as common ancestor, and
/// two cells with different base cells share none.
pub proof fn lemma_common_ancestor_self(a: CellView, b: CellView)
    ensures
        a == b ==> common_ancestor_spec(a, b) == Some(a.res),
        a.base != b.base ==> common_ancestor_spec(a, b) is None,
{
    if a == b {
        lemma_first_diff_char(a, b, min_res(a, b), min_res(a, b));
    }
}

/// The packed fields determine the word: two words whose views agree are
/// the same word.
proof fn lemma_view_determines_word(a: u64, b: u64)
    requires
        view_of(a) == view_of(b),
    ensures
        a == b,
{
    let va = view_of(a);
    let vb = view_of(b);
    assert(digit_lsb(1) == 42);
    assert(va.digits[0] == get_bits(a, 42, 3) as u32);
    assert(vb.digits[0] == get_bits(b, 42, 3) as u32);
    assert(va.digits[0] == vb.digits[0]);
    assert(digit_lsb(2) == 39);
    assert(va.digits[1] == get_bits(a, 39, 3) as u32);
    assert(vb.digits[1] == get_bits(b, 39, 3) as u32);
    assert(va.digits[1] == vb.digits[1]);
    assert(digit_lsb(3) == 36);
    assert(va.digits[2] == get_bits(a, 36, 3) as u32);
    assert(vb.digits[2] == get_bits(b, 36, 3) as u32);
    assert(va.digits[2] == vb.digits[2]);
    assert(digit_lsb(4) == 33);
    assert(va.digits[3] == get_bits(a, 33, 3) as u32);
    assert(vb.digits[3] == get_bits(b, 33, 3) as u32);
    assert(va.digits[3] == vb.digits[3]);
    assert(digit_lsb(5) == 30);
    assert(va.digits[4] == get_bits(a, 30, 3) as u32);
    assert(vb.digits[4] == get_bits(b, 30, 3) as u32);
    assert(va.digits[4] == vb.digits[4]);
    assert(digit_lsb(6) == 27);
    assert(va.digits[5] == get_bits(a, 27, 3) as u32);
    assert(vb.digits[5] == get_bits(b, 27, 3) as u32);
    assert(va.digits[5] == vb.digits[5]);
    assert(digit_lsb(7) == 24);
    assert(va.digits[6] == get_bits(a, 24, 3) as u32);
    assert(vb.digits[6] == get_bits(b, 24, 3) as u32);
    assert(va.digits[6] == vb.digits[6]);
    assert(digit_lsb(8) == 21);
    assert(va.digits[7] == get_bits(a, 21, 3) as u32);
    assert(vb.digits[7] == get_bits(b, 21, 3) as u32);
    assert(va.digits[7] == vb.digits[7]);
    assert(digit_lsb(9) == 18);
    assert(va.digits[8] == get_bits(a, 18, 3) as u32);
    assert(vb.digits[8] == get_bits(b, 18, 3) as u32);
    assert(va.digits[8] == vb.digits[8]);
    assert(digit_lsb(10) == 15);
    assert(va.digits[9] == get_bits(a, 15, 3) as u32);
    assert(vb.digits[9] == get_bits(b, 15, 3) as u32);
    assert(va.digits[9] == vb.digits[9]);
    assert(digit_lsb(11) == 12);
    assert(va.digits[10] == get_bits(a, 12, 3) as u32);
    assert(vb.digits[10] == get_bits(b, 12, 3) as u32);
    assert(va.digits[10] == vb.digits[10]);
    assert(digit_lsb(12) == 9);
    assert(va.digits[11] == get_bits(a, 9, 3) as u32);
    assert(vb.digits[11] == get_bits(b, 9, 3) as u32);
    assert(va.digits[11] == vb.digits[11]);
    assert(digit_lsb(13) == 6);
    assert(va.digits[12] == get_bits(a, 6, 3) as u32);
    assert(vb.digits[12] == get_bits(b, 6, 3) as u32);
    assert(va.digits[12] == vb.digits[12]);
    assert(digit_lsb(14) == 3);
    assert(va.digits[13] == get_bits(a, 3, 3) as u32);
    assert(vb.digits[13] == get_bits(b, 3, 3) as u32);
    assert(va.digits[13] == vb.digits[13]);
    assert(digit_lsb(15) == 0);
    assert(va.digits[14] == get_bits(a, 0, 3) as u32);
    assert(vb.digits[14] == get_bits(b, 0, 3) as u32);
    assert(va.digits[14] == vb.digits[14]);
    assert(a == b) by (bit_vector)
        requires
            get_bits(a, 63, 1) as u32 == get_bits(b, 63, 1) as u32,
            get_bits(a, 59, 4) as u32 == get_bits(b, 59, 4) as u32,
            get_bits(a, 56, 3) as u32 == get_bits(b, 56, 3) as u32,
            get_bits(a, 52, 4) as u32 == get_bits(b, 52, 4) as u32,
            get_bits(a, 45, 7) as u32 == get_bits(b, 45, 7) as u32,
            get_bits(a, 42, 3) as u32 == get_bits(b, 42, 3) as u32,
            get_bits(a, 39, 3) as u32 == get_bits(b, 39, 3) as u32,
            get_bits(a, 36, 3) as u32 == get_bits(b, 36, 3) as u32,
            get_bits(a, 33, 3) as u32 == get_bits(b, 33, 3) as u32,
            get_bits(a, 30, 3) as u32 == get_bits(b, 30, 3) as u32,
            get_bits(a, 27, 3) as u32 == get_bits(b, 27, 3) as u32,
            get_bits(a, 24, 3) as u32 == get_bits(b, 24, 3) as u32,
            get_bits(a, 21, 3) as u32 == get_bits(b, 21, 3) as u32,
            get_bits(a, 18, 3) as u32 == get_bits(b, 18, 3) as u32,
            get_bits(a, 15, 3) as u32 == get_bits(b, 15, 3) as u32,
            get_bits(a, 12, 3) as u32 == get_bits(b, 12, 3) as u32,
            get_bits(a, 9, 3) as u32 == get_bits(b, 9, 3) as u32,
            get_bits(a, 6, 3) as u32 == get_bits(b, 6, 3) as u32,
            get_bits(a, 3, 3) as u32 == get_bits(b, 3, 3) as u32,
            get_bits(a, 0, 3) as u32 == get_bits(b, 0, 3) as u32,
    ;
}

/// Two cells whose views agree are the same cell: the view reads every bit
/// of the word.
pub proof fn lemma_cells_equal(a: H3Cell, b: H3Cell)
    requires
        a@ == b@,
    ensures
        a == b,
{
    lemma_view_determines_word(a.w, b.w);
}

/// Deriving the ancestor of a finer cell `c` at the resolution of the cell
/// `p` it extends reproduces `p` exactly: the round trip from a cell through
/// a finer descendant and back is the identity.
pub proof fn lemma_child_parent_roundtrip(p: H3Cell, c: H3Cell, q: H3Cell)
    requires
        p.well_formed(),
        c.well_formed(),
        c@.base == p@.base,
        p@.res <= c@.res,
        forall|i: int| 0 <= i < p@.res ==> #[trigger] c@.digits[i] == p@.digits[i],
        q@ == parent_view(c@, p@.res),
    ensures
        q == p,
{
    assert(parent_view(c@, p@.res).digits =~= p@.digits);
    assert(parent_view(c@, p@.res) =~= p@);
    lemma_cells_equal(q, p);
}

/// The view of the reset word is the reset view.
proof fn lemma_reset_word()
    ensures
        view_of(0x0800_1FFF_FFFF_FFFFu64) == H3Cell::reset_view(),
        wf_view(view_of(0x0800_1FFF_FFFF_FFFFu64)),
{
    assert(get_bits(0x0800_1FFF_FFFF_FFFFu64, 63, 1) == 0) by (bit_vector);
    assert(get_bits(0x0800_1FFF_FFFF_FFFFu64, 59, 4) == 1) by (bit_vector);
    assert(get_bits(0x0800_1FFF_FFFF_FFFFu64, 56, 3) == 0) by (bit_vector);
    assert(get_bits(0x0800_1FFF_FFFF_FFFFu64, 52, 4) == 0) by (bit_vector);
    assert(get_bits(0x0800_1FFF_FFFF_FFFFu64, 45, 7) == 0) by (bit_vector);
    assert forall|i: int| 0 <= i < 15 implies view_of(0x0800_1FFF_FFFF_FFFFu64).digits[i]
        == 7u32 by {
        lemma_reset_digit(digit_lsb(i + 1));
    }
    assert(view_of(0x0800_1FFF_FFFF_FFFFu64).digits =~= H3Cell::reset_view().digits);
    assert(view_of(0x0800_1FFF_FFFF_FFFFu64) =~= H3Cell::reset_view());
}

/// Every 3-bit field inside the digit region of the reset word reads 7.
proof fn lemma_reset_digit(s: u64)
    requires
        s <= 42,
    ensures
        get_bits(0x0800_1FFF_FFFF_FFFFu64, s, 3) == 7,
{
    assert(get_bits(0x0800_1FFF_FFFF_FFFFu64, s, 3) == 7) by (bit_vector)
        requires
            s <= 42,
    ;
}

} // verus!
