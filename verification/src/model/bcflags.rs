//! Bridge Composer's `[BCFlags]` display bitmask.
use vstd::prelude::*;

use crate::num::{parse_unsigned, parse_unsigned_spec};
use crate::text::{trim, trim_chars};

verus! {

/// BCFlags - Bridge Composer display flags.
///
/// A bitmask that controls the visibility and behavior of various board
/// elements.
#[derive(Debug, Clone, Copy)]
pub struct BCFlags {
    raw: u32,
}

impl Default for BCFlags {
    /// No flag set.
    fn default() -> (f: Self)
        ensures
            f.bits() == 0,
    {
        Self { raw: 0 }
    }
}

/// Whether bit mask `m` has any bit set in `raw`.
pub open spec fn has_bits(raw: u32, m: u32) -> bool {
    raw & m != 0
}

impl BCFlags {
    /// The raw value these flags hold.
    pub closed spec fn bits(self) -> u32 {
        self.raw
    }

    /// Create BCFlags from a raw u32 value.
    pub fn new(raw: u32) -> (f: Self)
        ensures
            f.bits() == raw,
    {
        Self { raw }
    }

    /// Parse BCFlags from a hexadecimal string (without 0x prefix); `None`
    /// unless the trimmed text is a `u32` in hexadecimal.
    pub fn from_hex(s: &str) -> (f: Option<Self>)
        ensures
            match parse_unsigned_spec(trim(s@), 16, u32::MAX as int) {
                Some(v) => f matches Some(g) && g.bits() == v,
                None => f is None,
            },
    {
        let cs = crate::text::chars_of(s);
        let t = trim_chars(&cs);
        match parse_unsigned(&t, 16, 0xffff_ffff) {
            Some(v) => {
                let f = Self::new(v as u32);
                assert(f.bits() == v);
                Some(f)
            },
            None => None,
        }
    }

    /// Get the raw value.
    pub fn raw(&self) -> (r: u32)
        ensures
            r == self.bits(),
    {
        self.raw
    }

    /// Show the Play section (bit 0).
    pub fn show_play(&self) -> (b: bool)
        ensures
            b == has_bits(self.bits(), 0x1),
    {
        self.raw & 0x00000001 != 0
    }

    /// Show the Results section (bit 1).
    pub fn show_results(&self) -> (b: bool)
        ensures
            b == has_bits(self.bits(), 0x2),
    {
        self.raw & 0x00000002 != 0
    }

    /// Show the Final Commentary (bit 2).
    pub fn show_final_commentary(&self) -> (b: bool)
        ensures
            b == has_bits(self.bits(), 0x4),
    {
        self.raw & 0x00000004 != 0
    }

    /// Show the Diagram section (bit 3).
    pub fn show_diagram(&self) -> (b: bool)
        ensures
            b == has_bits(self.bits(), 0x8),
    {
        self.raw & 0x00000008 != 0
    }

    /// Show the Auction section (bit 4).
    pub fn show_auction(&self) -> (b: bool)
        ensures
            b == has_bits(self.bits(), 0x10),
    {
        self.raw & 0x00000010 != 0
    }

    /// Show the Event Commentary (bit 5).
    pub fn show_event_commentary(&self) -> (b: bool)
        ensures
            b == has_bits(self.bits(), 0x20),
    {
        self.raw & 0x00000020 != 0
    }

    /// Show the Diagram Commentary (bit 6).
    pub fn show_diagram_commentary(&self) -> (b: bool)
        ensures
            b == has_bits(self.bits(), 0x40),
    {
        self.raw & 0x00000040 != 0
    }

    /// Show the Auction Commentary (bit 7).
    pub fn show_auction_commentary(&self) -> (b: bool)
        ensures
            b == has_bits(self.bits(), 0x80),
    {
        self.raw & 0x00000080 != 0
    }

    /// Show the cards played so far in the card table (bit 11): the trick in
    /// a card table, the played cards greyed in the hands.
    pub fn show_trick(&self) -> (b: bool)
        ensures
            b == has_bits(self.bits(), 0x800),
    {
        self.raw & 0x00000800 != 0
    }

    /// Hide the Board field (bit 20).
    pub fn hide_board(&self) -> (b: bool)
        ensures
            b == has_bits(self.bits(), 0x100000),
    {
        self.raw & 0x00100000 != 0
    }

    /// Hide the Dealer field (bit 21).
    pub fn hide_dealer(&self) -> (b: bool)
        ensures
            b == has_bits(self.bits(), 0x200000),
    {
        self.raw & 0x00200000 != 0
    }

    /// Hide the Vulnerable field (bit 22).
    pub fn hide_vulnerable(&self) -> (b: bool)
        ensures
            b == has_bits(self.bits(), 0x400000),
    {
        self.raw & 0x00400000 != 0
    }

    /// Hide the Total Score Table (bit 23).
    pub fn hide_score_table(&self) -> (b: bool)
        ensures
            b == has_bits(self.bits(), 0x800000),
    {
        self.raw & 0x00800000 != 0
    }

    /// Hide the Contract and Declarer fields (bit 27).
    pub fn hide_contract(&self) -> (b: bool)
        ensures
            b == has_bits(self.bits(), 0x8000000),
    {
        self.raw & 0x08000000 != 0
    }

    /// Hide "Notes" (bit 28).
    pub fn hide_notes(&self) -> (b: bool)
        ensures
            b == has_bits(self.bits(), 0x10000000),
    {
        self.raw & 0x10000000 != 0
    }

    /// Column break before this board (bit 25).
    pub fn column_break(&self) -> (b: bool)
        ensures
            b == has_bits(self.bits(), 0x2000000),
    {
        self.raw & 0x02000000 != 0
    }

    /// Page break before this board (bit 26).
    pub fn page_break(&self) -> (b: bool)
        ensures
            b == has_bits(self.bits(), 0x4000000),
    {
        self.raw & 0x04000000 != 0
    }

    /// Event Commentary preformatted flag (bit 12).
    pub fn event_commentary_preformatted(&self) -> (b: bool)
        ensures
            b == has_bits(self.bits(), 0x1000),
    {
        self.raw & 0x00001000 != 0
    }

    /// Diagram Commentary preformatted flag (bit 13).
    pub fn diagram_commentary_preformatted(&self) -> (b: bool)
        ensures
            b == has_bits(self.bits(), 0x2000),
    {
        self.raw & 0x00002000 != 0
    }

    /// Auction Commentary preformatted flag (bit 14).
    pub fn auction_commentary_preformatted(&self) -> (b: bool)
        ensures
            b == has_bits(self.bits(), 0x4000),
    {
        self.raw & 0x00004000 != 0
    }

    /// Final Commentary preformatted flag (bit 15).
    pub fn final_commentary_preformatted(&self) -> (b: bool)
        ensures
            b == has_bits(self.bits(), 0x8000),
    {
        self.raw & 0x00008000 != 0
    }

    /// Show space for hidden hands (bit 29).
    pub fn show_space_for_hidden(&self) -> (b: bool)
        ensures
            b == has_bits(self.bits(), 0x20000000),
    {
        self.raw & 0x20000000 != 0
    }

    /// Returns true if any "show" flag (bits 0-7) is set.
    pub fn has_show_flags(&self) -> (b: bool)
        ensures
            b == has_bits(self.bits(), 0xff),
    {
        self.raw & 0x000000FF != 0
    }

    /// Returns true if any "hide" flag is set: board, dealer, vulnerability,
    /// score table, contract or notes (bits 20-23, 27 and 28).
    pub fn has_hide_flags(&self) -> (b: bool)
        ensures
            b == has_bits(self.bits(), 0x18f00000),
            b == (has_bits(self.bits(), 0x100000) || has_bits(self.bits(), 0x200000) || has_bits(
                self.bits(),
                0x400000,
            ) || has_bits(self.bits(), 0x800000) || has_bits(self.bits(), 0x8000000) || has_bits(
                self.bits(),
                0x10000000,
            )),
    {
        let b = self.raw & 0x18F00000 != 0;
        let r = self.raw;
        assert((r & 0x18f00000 != 0) == (r & 0x100000 != 0 || r & 0x200000 != 0 || r & 0x400000 != 0
            || r & 0x800000 != 0 || r & 0x8000000 != 0 || r & 0x10000000 != 0)) by (bit_vector);
        b
    }
}

} // verus!
