//! Getting your attention when the overlay itself cannot.
//!
//! A maximised video or a full-screen editor covers the overlay completely, and
//! then a finished turn goes unnoticed until you happen to look. The tray icon
//! is the one surface that stays reachable, so a completion blinks it.
//!
//! Small and interruptible: it blinks for a few seconds, any click stops it, and
//! Do Not Disturb suppresses it entirely.

use vstd::prelude::*;

verus! {

pub const BLINK_MS: u64 = 500;

/// Long enough to catch the corner of your eye, short enough that a finished
/// build does not sit there strobing at you.
pub const BLINKS: u32 = 10;

/// Cancels whatever flash is in flight. Every start takes a ticket, and a blink
/// whose ticket is stale stops rather than fighting the newer one.
pub struct Attention {
    pub generation: u64,
}

impl Default for Attention {
    fn default() -> (r: Attention)
        ensures
            r.generation == 0,
    {
        Attention { generation: 0 }
    }
}

impl Attention {
    /// A ticket that makes every earlier one stale.
    pub fn next(&mut self) -> (r: u64)
        ensures
            final(self).generation == old(self).generation.wrapping_add(1),
            r == final(self).generation,
            r != old(self).generation,
    {
        self.generation = self.generation.wrapping_add(1);
        self.generation
    }

    pub fn current(&self) -> (r: u64)
        ensures
            r == self.generation,
    {
        self.generation
    }
}

/// Which icon the tray shows.
#[derive(Clone, Copy, PartialEq, Eq, Structural)]
pub enum Face {
    Alert,
    Normal,
}

/// What a blink does next: the icon to show, or `None` once it is over or its
/// ticket is stale.
pub open spec fn blink_spec(generation: u64, ticket: u64, step: u32) -> Option<Face> {
    if step >= BLINKS || generation != ticket {
        None
    } else if step % 2 == 0 {
        Some(Face::Alert)
    } else {
        Some(Face::Normal)
    }
}

pub fn blink(attention: &Attention, ticket: u64, step: u32) -> (r: Option<Face>)
    ensures
        r == blink_spec(attention.generation, ticket, step),
{
    if step >= BLINKS || attention.current() != ticket {
        None
    } else if step % 2 == 0 {
        Some(Face::Alert)
    } else {
        Some(Face::Normal)
    }
}

/// Whether a flash puts the normal icon back when it ends. Only its own: a
/// newer flash owns the icon now.
pub fn tidies_up(attention: &Attention, ticket: u64) -> (r: bool)
    ensures
        r == (attention.generation == ticket),
{
    attention.current() == ticket
}

/// Whether a finished project may blink the tray.
pub fn may_flash(quiet: bool, flash_on_finish: bool) -> (r: bool)
    ensures
        r == (!quiet && flash_on_finish),
{
    !quiet && flash_on_finish
}

// --- the alert icon ------------------------------------------------------------
/// A channel of a visible pixel pushed towards the alert colour.
pub open spec fn warmed(value: u8, channel: int) -> u8 {
    if channel == 0 {
        if value + 96 > 255 {
            255u8
        } else {
            (value + 96) as u8
        }
    } else if channel == 1 {
        ((value * 3) / 5) as u8
    } else if channel == 2 {
        ((value * 2) / 5) as u8
    } else {
        value
    }
}

/// What becomes of one byte of an icon. Transparent pixels, and bytes that make
/// up no whole pixel, stay as they are.
pub open spec fn warmed_at(rgba: Seq<u8>, k: int) -> u8 {
    let alpha = k - k % 4 + 3;
    if alpha < rgba.len() && rgba[alpha] != 0 {
        warmed(rgba[k], k % 4)
    } else {
        rgba[k]
    }
}

pub open spec fn alerted(rgba: Seq<u8>) -> Seq<u8> {
    Seq::new(rgba.len(), |k: int| warmed_at(rgba, k))
}

fn warm(value: u8, channel: usize) -> (r: u8)
    requires
        channel < 4,
    ensures
        r == warmed(value, channel as int),
{
    if channel == 0 {
        value.saturating_add(96)
    } else if channel == 1 {
        ((value as u16 * 3) / 5) as u8
    } else if channel == 2 {
        ((value as u16 * 2) / 5) as u8
    } else {
        value
    }
}

/// The same icon pushed towards the alert colour.
///
/// Recolouring rather than swapping in a second asset keeps it recognisably the
/// same pet. A blink between two unrelated pictures reads as a glitch.
pub fn alert_icon(rgba: &Vec<u8>) -> (r: Vec<u8>)
    ensures
        r@ == alerted(rgba@),
{
    let mut out: Vec<u8> = Vec::new();
    let mut k: usize = 0;
    while k < rgba.len()
        invariant
            k <= rgba@.len(),
            out@.len() == k,
            forall|j: int| 0 <= j < k ==> #[trigger] out@[j] == warmed_at(rgba@, j),
        decreases rgba@.len() - k,
    {
        let channel: usize = k % 4;
        let left: usize = rgba.len() - k;
        let visible = left > 3 - channel && rgba[k + (3 - channel)] != 0;
        let value: u8 = rgba[k];
        out.push(
            if visible {
                warm(value, channel)
            } else {
                value
            },
        );
        k = k + 1;
    }
    assert(out@ =~= alerted(rgba@));
    out
}

/// Only one flash at a time owns the icon: a ticket is stale from the moment
/// the next one is taken, and its flash shows nothing any more.
pub proof fn a_newer_flash_takes_over(ticket: u64, step: u32)
    ensures
        blink_spec(ticket.wrapping_add(1), ticket, step) is None,
{
}

} // verus!
