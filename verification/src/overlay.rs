use vstd::prelude::*;

verus! {

/// The number of debug overlays.
pub open spec fn flag_count() -> int {
    4
}

/// The bit of overlay `i`: the cell query (0), the cell grid (1), the
/// smoothing radius (2) and the velocity arrows (3).
pub open spec fn flag_bit(i: int) -> u32 {
    if i == 0 {
        1
    } else if i == 1 {
        2
    } else if i == 2 {
        4
    } else {
        8
    }
}

/// The name shown for overlay `i`.
pub open spec fn flag_name(i: int) -> Seq<char> {
    if i == 0 {
        "CellQuery"@
    } else if i == 1 {
        "CellGrid"@
    } else if i == 2 {
        "SmoothingRadius"@
    } else {
        "VelocityArrows"@
    }
}

/// The names of the overlays among the first `upto` that `bits` holds, in
/// overlay order.
pub open spec fn set_names(bits: u32, upto: int) -> Seq<Seq<char>>
    decreases upto,
{
    if upto <= 0 {
        Seq::empty()
    } else {
        let before = set_names(bits, upto - 1);
        if bits & flag_bit(upto - 1) != 0 {
            before.push(flag_name(upto - 1))
        } else {
            before
        }
    }
}

/// The names joined by `", "`.
pub open spec fn join_names(names: Seq<Seq<char>>) -> Seq<char>
    decreases names.len(),
{
    if names.len() == 0 {
        Seq::empty()
    } else if names.len() == 1 {
        names[0]
    } else {
        join_names(names.drop_last()) + ", "@ + names.last()
    }
}

/// The text shown for a selection of overlays: `None` for none, `All` for
/// all of them, and otherwise the names of those selected, joined by `", "`.
pub open spec fn spec_label(bits: u32) -> Seq<char> {
    if bits == 0 {
        "None"@
    } else if bits == 15 {
        "All"@
    } else {
        join_names(set_names(bits, flag_count()))
    }
}

/// A selection of debug overlays, as a set of flag bits.
#[derive(Clone, Copy, Debug, PartialEq, Eq, Structural)]
pub struct DebugOverlay {
    bits: u32,
}

impl View for DebugOverlay {
    type V = u32;

    closed spec fn view(&self) -> u32 {
        self.bits
    }
}

fn flag_name_exec(i: usize) -> (r: &'static str)
    requires
        i < 4,
    ensures
        r@ == flag_name(i as int),
{
    if i == 0 {
        "CellQuery"
    } else if i == 1 {
        "CellGrid"
    } else if i == 2 {
        "SmoothingRadius"
    } else {
        "VelocityArrows"
    }
}

fn flag_bit_exec(i: usize) -> (r: u32)
    requires
        i < 4,
    ensures
        r == flag_bit(i as int),
{
    if i == 0 {
        1
    } else if i == 1 {
        2
    } else if i == 2 {
        4
    } else {
        8
    }
}

impl DebugOverlay {
    #[verifier::type_invariant]
    spec fn only_known_bits(self) -> bool {
        self.bits <= 15
    }

    /// No overlay.
    pub fn empty() -> (r: Self)
        ensures
            r@ == 0,
    {
        DebugOverlay { bits: 0 }
    }

    /// Every overlay.
    pub fn all() -> (r: Self)
        ensures
            r@ == 15,
    {
        DebugOverlay { bits: 15 }
    }

    /// Lines from the cursor to the particles of the neighbour query.
    pub fn cell_query() -> (r: Self)
        ensures
            r@ == flag_bit(0),
    {
        DebugOverlay { bits: 1 }
    }

    /// The grid cells around the cursor.
    pub fn cell_grid() -> (r: Self)
        ensures
            r@ == flag_bit(1),
    {
        DebugOverlay { bits: 2 }
    }

    /// The smoothing radius around the cursor.
    pub fn smoothing_radius() -> (r: Self)
        ensures
            r@ == flag_bit(2),
    {
        DebugOverlay { bits: 4 }
    }

    /// An arrow along each particle's velocity.
    pub fn velocity_arrows() -> (r: Self)
        ensures
            r@ == flag_bit(3),
    {
        DebugOverlay { bits: 8 }
    }

    /// The overlays whose bits are set in `bits`; other bits are dropped.
    pub fn from_bits_truncate(bits: u32) -> (r: Self)
        ensures
            r@ == bits & 15,
    {
        let b = bits & 15;
        assert(b <= 15) by (bit_vector)
            requires
                b == bits & 15,
        ;
        DebugOverlay { bits: b }
    }

    /// The flag bits.
    pub fn bits(&self) -> (r: u32)
        ensures
            r == self@,
            r <= 15,
    {
        proof {
            use_type_invariant(self);
        }
        self.bits
    }

    /// No overlay is selected.
    pub fn is_empty(&self) -> (r: bool)
        ensures
            r == (self@ == 0),
    {
        self.bits == 0
    }

    /// Every overlay is selected.
    pub fn is_all(&self) -> (r: bool)
        ensures
            r == (self@ == 15),
    {
        self.bits == 15
    }

    /// Some overlay is selected in both.
    pub fn intersects(&self, other: Self) -> (r: bool)
        ensures
            r == (self@ & other@ != 0),
    {
        self.bits & other.bits != 0
    }

    /// Flips the overlays selected in `other`.
    pub fn toggle(&mut self, other: Self)
        ensures
            final(self)@ == old(self)@ ^ other@,
    {
        proof {
            use_type_invariant(&*self);
            use_type_invariant(&other);
        }
        let a = self.bits;
        let b = other.bits;
        let c = a ^ b;
        assert(c <= 15) by (bit_vector)
            requires
                a <= 15,
                b <= 15,
                c == a ^ b,
        ;
        self.bits = c;
    }

    /// The text shown for the selection (see `spec_label`).
    pub fn label(&self) -> (r: String)
        ensures
            r@ == spec_label(self@),
    {
        proof {
            use_type_invariant(self);
        }
        if self.bits == 0 {
            return String::from_str("None");
        }
        if self.bits == 15 {
            return String::from_str("All");
        }
        let mut acc: Option<String> = None;
        let mut i: usize = 0;
        while i < 4
            invariant
                i <= 4,
                self.bits <= 15,
                match acc {
                    Some(s) => set_names(self.bits, i as int).len() > 0 && s@ == join_names(
                        set_names(self.bits, i as int),
                    ),
                    None => set_names(self.bits, i as int).len() == 0,
                },
            decreases 4 - i,
        {
            let bit = flag_bit_exec(i);
            let ghost names = set_names(self.bits, i as int);
            if self.bits & bit != 0 {
                let name = flag_name_exec(i);
                proof {
                    assert(set_names(self.bits, i as int + 1) == names.push(name@));
                    assert(names.push(name@).drop_last() =~= names);
                }
                acc = match acc {
                    Some(s) => {
                        let s2 = s.concat(", ");
                        Some(s2.concat(name))
                    },
                    None => Some(String::from_str(name)),
                };
            }
            i = i + 1;
        }
        let b = self.bits;
        assert(b & 1 != 0 || b & 2 != 0 || b & 4 != 0 || b & 8 != 0) by (bit_vector)
            requires
                b != 0,
                b <= 15,
        ;
        match acc {
            Some(s) => s,
            None => {
                proof {
                    reveal_with_fuel(set_names, 5);
                    assert(false);
                }
                String::new()
            },
        }
    }
}

/// Toggling the same overlays twice restores the selection.
pub proof fn lemma_toggle_twice(selection: DebugOverlay, flags: DebugOverlay)
    ensures
        (selection@ ^ flags@) ^ flags@ == selection@,
{
    let a = selection@;
    let b = flags@;
    assert((a ^ b) ^ b == a) by (bit_vector);
}

/// The label of a single overlay is its name.
pub proof fn lemma_single_flag_label(i: int)
    requires
        0 <= i < flag_count(),
    ensures
        spec_label(flag_bit(i)) == flag_name(i),
{
    reveal_with_fuel(set_names, 5);
    assert(1u32 & 1u32 != 0 && 1u32 & 2u32 == 0 && 1u32 & 4u32 == 0 && 1u32 & 8u32 == 0)
        by (bit_vector);
    assert(2u32 & 1u32 == 0 && 2u32 & 2u32 != 0 && 2u32 & 4u32 == 0 && 2u32 & 8u32 == 0)
        by (bit_vector);
    assert(4u32 & 1u32 == 0 && 4u32 & 2u32 == 0 && 4u32 & 4u32 != 0 && 4u32 & 8u32 == 0)
        by (bit_vector);
    assert(8u32 & 1u32 == 0 && 8u32 & 2u32 == 0 && 8u32 & 4u32 == 0 && 8u32 & 8u32 != 0)
        by (bit_vector);
}

} // verus!
