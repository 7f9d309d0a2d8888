//! The touch-gesture state machine and the inverse view transform.
//!
//! The host delivers raw touch samples in device coordinates with a
//! normalized force. A stroke gesture is idle until the force exceeds the
//! threshold, paints while it stays above it, and ends when it drops back:
//! `step` consumes one sample, decides whether it paints, chains the
//! previous sample's point as the stroke's starting point, and reports when
//! the press state flips. Device coordinates are mapped into canvas space
//! by dividing out the view scale.

use vstd::arithmetic::div_mod::{
    lemma_div_basics, lemma_div_is_ordered_by_denominator, lemma_div_pos_is_pos,
};
use vstd::prelude::*;

use crate::geom::{coord_ok, Point};

verus! {

/// Pressure above which a touch sample paints, in the same units as the
/// pressure itself: about a tenth of full force.
pub const FORCE_THRESHOLD: u8 = 25;

/// Largest device coordinate a touch sample may carry; keeps every mapped
/// point within `COORD_LIMIT` of canvas space.
pub const DEVICE_LIMIT: u32 = 1000000;

/// A force paints exactly when it exceeds the threshold.
pub open spec fn active(force: u8) -> bool {
    force > FORCE_THRESHOLD
}

/// How the press state changed at a sample: the force rose over the
/// threshold, dropped under it, or stayed on its side.
#[derive(Clone, Copy, PartialEq, Eq, Structural, Debug)]
pub enum PressEdge {
    Pressed,
    Released,
    Unchanged,
}

/// One stroke call the host owes the canvas for a painting sample: the
/// previous point if the gesture had one, the sampled point, both in canvas
/// space, and the pressure to paint with.
#[derive(Clone, Copy, PartialEq, Eq, Debug)]
pub struct StrokeCommand {
    pub from: Option<Point>,
    pub to: Point,
    pub pressure: u8,
}

/// Maps a device position into canvas space by dividing out the view
/// scale.
pub fn to_canvas(x: u32, y: u32, scale: u16) -> (p: Point)
    requires
        x <= DEVICE_LIMIT,
        y <= DEVICE_LIMIT,
        1 <= scale,
    ensures
        p.x as int == x as int / scale as int,
        p.y as int == y as int / scale as int,
        coord_ok(p),
{
    let s: u32 = scale as u32;
    let sx: u32 = x / s;
    let sy: u32 = y / s;
    proof {
        lemma_div_basics(x as int);
        lemma_div_basics(y as int);
        lemma_div_is_ordered_by_denominator(x as int, 1, s as int);
        lemma_div_is_ordered_by_denominator(y as int, 1, s as int);
        lemma_div_pos_is_pos(x as int, s as int);
        lemma_div_pos_is_pos(y as int, s as int);
    }
    Point { x: sx as i32, y: sy as i32 }
}

/// The state a stroke gesture carries between samples: the previous touch
/// position in device space, if any, and the previous force.
pub struct Gesture {
    last_touch: Option<(u32, u32)>,
    last_force: u8,
}

impl Gesture {
    /// The previous sample's device position.
    pub closed spec fn last_touch(&self) -> Option<(u32, u32)> {
        self.last_touch
    }

    /// The previous sample's force.
    pub closed spec fn last_force(&self) -> u8 {
        self.last_force
    }

    /// A remembered touch position is within the device limit.
    pub closed spec fn wf(&self) -> bool {
        match self.last_touch {
            Option::None => true,
            Option::Some((lx, ly)) => lx <= DEVICE_LIMIT && ly <= DEVICE_LIMIT,
        }
    }

    /// A fresh gesture: idle, with no sample seen.
    pub fn new() -> (g: Gesture)
        ensures
            g.wf(),
            g.last_touch() is None,
            g.last_force() == 0,
    {
        Gesture { last_touch: Option::None, last_force: 0 }
    }

    /// Consumes one touch sample. Returns the stroke call it commands —
    /// present exactly when the force paints, chaining the previous point,
    /// with both points mapped into canvas space — and how the press state
    /// changed against the previous sample.
    pub fn step(&mut self, x: u32, y: u32, force: u8, scale: u16) -> (r: (
        Option<StrokeCommand>,
        PressEdge,
    ))
        requires
            old(self).wf(),
            x <= DEVICE_LIMIT,
            y <= DEVICE_LIMIT,
            1 <= scale,
        ensures
            final(self).wf(),
            final(self).last_touch() == Option::Some((x, y)),
            final(self).last_force() == force,
            match r.0 {
                Option::Some(cmd) => {
                    &&& active(force)
                    &&& cmd.pressure == force
                    &&& cmd.to.x as int == x as int / scale as int
                    &&& cmd.to.y as int == y as int / scale as int
                    &&& coord_ok(cmd.to)
                    &&& match (old(self).last_touch(), cmd.from) {
                        (Option::Some((lx, ly)), Option::Some(lp)) => {
                            &&& lp.x as int == lx as int / scale as int
                            &&& lp.y as int == ly as int / scale as int
                            &&& coord_ok(lp)
                        },
                        (Option::None, Option::None) => true,
                        _ => false,
                    }
                },
                Option::None => !active(force),
            },
            r.1 == (if !active(old(self).last_force()) && active(force) {
                PressEdge::Pressed
            } else if active(old(self).last_force()) && !active(force) {
                PressEdge::Released
            } else {
                PressEdge::Unchanged
            }),
    {
        let cmd: Option<StrokeCommand> = if force > FORCE_THRESHOLD {
            let from: Option<Point> = match self.last_touch {
                Option::Some(lt) => Option::Some(to_canvas(lt.0, lt.1, scale)),
                Option::None => Option::None,
            };
            Option::Some(StrokeCommand { from, to: to_canvas(x, y, scale), pressure: force })
        } else {
            Option::None
        };
        let edge: PressEdge = if self.last_force <= FORCE_THRESHOLD && force > FORCE_THRESHOLD {
            PressEdge::Pressed
        } else if self.last_force > FORCE_THRESHOLD && force <= FORCE_THRESHOLD {
            PressEdge::Released
        } else {
            PressEdge::Unchanged
        };
        self.last_touch = Option::Some((x, y));
        self.last_force = force;
        (cmd, edge)
    }
}

} // verus!
