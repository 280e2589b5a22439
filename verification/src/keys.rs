//! Edge detection over modifier-key level snapshots.
//!
//! The operating system reports the full set of currently held modifier keys
//! as a bitmask whenever it changes. [`KeyStateTracker`] turns that level
//! stream into press/release edges for one configured hotkey, and latches a
//! "polish requested" flag when a secondary modifier is seen held at any
//! point during a press.

use vstd::prelude::*;

verus! {

/// Flag bit reported for the Fn (globe) modifier.
pub const FN_MASK: u64 = 0x800000;
/// Flag bit reported for the Option/Alt modifier.
pub const OPTION_MASK: u64 = 0x80000;
/// Flag bit reported for the Control modifier.
pub const CONTROL_MASK: u64 = 0x40000;
/// Flag bit reported for the Shift modifier.
pub const SHIFT_MASK: u64 = 0x20000;
/// Flag bit reported for the Command modifier.
pub const COMMAND_MASK: u64 = 0x100000;

/// The modifier keys that can be configured as the dictation hotkey.
#[derive(Clone, Copy, PartialEq, Eq, Structural, Debug)]
pub enum Hotkey {
    FnKey,
    OptionKey,
    ControlKey,
    ShiftKey,
    CommandKey,
}

/// The flag bit that reports the given hotkey.
pub open spec fn spec_hotkey_mask(h: Hotkey) -> u64 {
    match h {
        Hotkey::FnKey => FN_MASK,
        Hotkey::OptionKey => OPTION_MASK,
        Hotkey::ControlKey => CONTROL_MASK,
        Hotkey::ShiftKey => SHIFT_MASK,
        Hotkey::CommandKey => COMMAND_MASK,
    }
}

/// Maps a configured hotkey to the flag bit that reports it.
pub fn hotkey_mask(h: Hotkey) -> (m: u64)
    ensures
        m == spec_hotkey_mask(h),
{
    match h {
        Hotkey::FnKey => FN_MASK,
        Hotkey::OptionKey => OPTION_MASK,
        Hotkey::ControlKey => CONTROL_MASK,
        Hotkey::ShiftKey => SHIFT_MASK,
        Hotkey::CommandKey => COMMAND_MASK,
    }
}

/// The modifier that requests polishing: Control, unless Control itself is
/// the hotkey, in which case Shift.
pub fn polish_trigger(h: Hotkey) -> (t: Hotkey)
    ensures
        t == (if h == Hotkey::ControlKey {
            Hotkey::ShiftKey
        } else {
            Hotkey::ControlKey
        }),
{
    match h {
        Hotkey::ControlKey => Hotkey::ShiftKey,
        _ => Hotkey::ControlKey,
    }
}

/// A press or release edge of the configured hotkey. A release carries the
/// latched "polish requested" flag of its session.
#[derive(Clone, Copy, PartialEq, Eq, Structural, Debug)]
pub enum KeyEdge {
    Pressed,
    Released { polish: bool },
}

/// Whether a snapshot reports any bit of `mask` as held.
pub open spec fn level(flags: u64, mask: u64) -> bool {
    flags & mask != 0
}

/// Level state carried between snapshots: the previous hotkey level and the
/// polish latch of the running session.
#[derive(Clone, Copy, PartialEq, Eq, Structural, Debug)]
pub struct KeyStateTracker {
    pub was_pressed: bool,
    pub polish_latched: bool,
}

impl KeyStateTracker {
    /// One snapshot step: the successor state and the edge it emits, if any.
    ///
    /// A rising hotkey level emits `Pressed` and resets the latch (to the
    /// polish level of that same snapshot); a falling level emits `Released`
    /// carrying the latch; while the hotkey is held, a held polish modifier
    /// latches.
    pub open spec fn spec_step(self, flags: u64, hotkey_mask: u64, polish_mask: u64) -> (
        KeyStateTracker,
        Option<KeyEdge>,
    ) {
        let pressed = level(flags, hotkey_mask);
        let held = level(flags, polish_mask);
        if pressed && !self.was_pressed {
            (
                KeyStateTracker { was_pressed: true, polish_latched: held },
                Some(KeyEdge::Pressed),
            )
        } else if !pressed && self.was_pressed {
            (
                KeyStateTracker { was_pressed: false, polish_latched: self.polish_latched },
                Some(KeyEdge::Released { polish: self.polish_latched }),
            )
        } else if pressed && held {
            (KeyStateTracker { was_pressed: true, polish_latched: true }, None)
        } else {
            (
                KeyStateTracker { was_pressed: pressed, polish_latched: self.polish_latched },
                None,
            )
        }
    }

    /// A fresh tracker: hotkey not held, nothing latched.
    pub fn new() -> (t: Self)
        ensures
            !t.was_pressed,
            !t.polish_latched,
    {
        KeyStateTracker { was_pressed: false, polish_latched: false }
    }

    /// Feeds one modifier snapshot and returns the edge it produces, if any.
    pub fn on_snapshot(&mut self, flags: u64, hotkey_mask: u64, polish_mask: u64) -> (e: Option<
        KeyEdge,
    >)
        ensures
            (*final(self), e) == old(self).spec_step(flags, hotkey_mask, polish_mask),
    {
        let pressed = flags & hotkey_mask != 0;
        let held = flags & polish_mask != 0;
        if pressed && !self.was_pressed {
            self.was_pressed = true;
            self.polish_latched = held;
            Some(KeyEdge::Pressed)
        } else if !pressed && self.was_pressed {
            self.was_pressed = false;
            Some(KeyEdge::Released { polish: self.polish_latched })
        } else {
            if pressed && held {
                self.polish_latched = true;
            }
            self.was_pressed = pressed;
            None
        }
    }
}

/// Runs a tracker over a whole sequence of snapshots: the final state and
/// the edges emitted, in order.
pub open spec fn run_tracker(
    t: KeyStateTracker,
    hotkey_mask: u64,
    polish_mask: u64,
    snaps: Seq<u64>,
) -> (KeyStateTracker, Seq<KeyEdge>)
    decreases snaps.len(),
{
    if snaps.len() == 0 {
        (t, Seq::empty())
    } else {
        let stepped = t.spec_step(snaps[0], hotkey_mask, polish_mask);
        let rest = run_tracker(stepped.0, hotkey_mask, polish_mask, snaps.drop_first());
        (
            rest.0,
            match stepped.1 {
                Some(e) => seq![e] + rest.1,
                None => rest.1,
            },
        )
    }
}

/// Edges alternate between `Pressed` and `Released`, anchored at the level
/// the tracker last saw: from a non-pressed state the edges at even
/// positions are `Pressed`, from a pressed state those at odd positions are.
pub open spec fn alternates_from(edges: Seq<KeyEdge>, pressed0: bool) -> bool {
    forall|i: int|
        0 <= i < edges.len() ==> ((#[trigger] edges[i]) is Pressed <==> (i % 2 == (
        if pressed0 {
            1int
        } else {
            0int
        })))
}

/// A snapshot that leaves the hotkey level unchanged emits no edge.
pub proof fn lemma_no_edge_without_level_change(
    t: KeyStateTracker,
    flags: u64,
    hotkey_mask: u64,
    polish_mask: u64,
)
    requires
        level(flags, hotkey_mask) == t.was_pressed,
    ensures
        t.spec_step(flags, hotkey_mask, polish_mask).1 is None,
{
}

/// Every run emits strictly alternating edges, and ends pressed exactly when
/// the edge count has the parity that alternation dictates.
pub proof fn lemma_run_alternates(
    t: KeyStateTracker,
    hotkey_mask: u64,
    polish_mask: u64,
    snaps: Seq<u64>,
)
    ensures
        alternates_from(run_tracker(t, hotkey_mask, polish_mask, snaps).1, t.was_pressed),
        run_tracker(t, hotkey_mask, polish_mask, snaps).0.was_pressed == (if run_tracker(
            t,
            hotkey_mask,
            polish_mask,
            snaps,
        ).1.len() % 2 == 0 {
            t.was_pressed
        } else {
            !t.was_pressed
        }),
    decreases snaps.len(),
{
    if snaps.len() == 0 {
    } else {
        let stepped = t.spec_step(snaps[0], hotkey_mask, polish_mask);
        lemma_run_alternates(stepped.0, hotkey_mask, polish_mask, snaps.drop_first());
        let rest = run_tracker(stepped.0, hotkey_mask, polish_mask, snaps.drop_first());
        match stepped.1 {
            Some(e) => {
                assert(stepped.0.was_pressed == !t.was_pressed);
                assert(e is Pressed <==> !t.was_pressed);
                let edges = seq![e] + rest.1;
                assert forall|i: int| 0 <= i < edges.len() implies ((#[trigger] edges[i])
                    is Pressed <==> (i % 2 == (
                if t.was_pressed {
                    1int
                } else {
                    0int
                }))) by {
                    if i > 0 {
                        assert(edges[i] == rest.1[i - 1]);
                    }
                }
            },
            None => {
                assert(stepped.0.was_pressed == t.was_pressed);
            },
        }
    }
}

/// From a fresh tracker, the first edge of any run is `Pressed` and the
/// edges strictly alternate thereafter.
pub proof fn lemma_edges_alternate(hotkey_mask: u64, polish_mask: u64, snaps: Seq<u64>)
    ensures
        ({
            let edges = run_tracker(
                KeyStateTracker { was_pressed: false, polish_latched: false },
                hotkey_mask,
                polish_mask,
                snaps,
            ).1;
            forall|i: int| 0 <= i < edges.len() ==> ((#[trigger] edges[i]) is Pressed <==> i % 2 == 0)
        }),
{
    let t = KeyStateTracker { was_pressed: false, polish_latched: false };
    lemma_run_alternates(t, hotkey_mask, polish_mask, snaps);
}

/// While the hotkey level stays held, no edge is emitted, the state stays
/// pressed, and the latch becomes set exactly if it was set before or some
/// snapshot holds the polish modifier.
proof fn lemma_run_while_held(
    t: KeyStateTracker,
    hotkey_mask: u64,
    polish_mask: u64,
    snaps: Seq<u64>,
)
    requires
        t.was_pressed,
        forall|k: int| 0 <= k < snaps.len() ==> level(#[trigger] snaps[k], hotkey_mask),
    ensures
        ({
            let r = run_tracker(t, hotkey_mask, polish_mask, snaps);
            &&& r.1 =~= Seq::<KeyEdge>::empty()
            &&& r.0.was_pressed
            &&& r.0.polish_latched == (t.polish_latched || exists|k: int|
                0 <= k < snaps.len() && level(#[trigger] snaps[k], polish_mask))
        }),
    decreases snaps.len(),
{
    if snaps.len() == 0 {
    } else {
        let stepped = t.spec_step(snaps[0], hotkey_mask, polish_mask);
        assert(level(snaps[0], hotkey_mask));
        lemma_run_while_held(stepped.0, hotkey_mask, polish_mask, snaps.drop_first());
        let r = run_tracker(t, hotkey_mask, polish_mask, snaps);
        let held0 = level(snaps[0], polish_mask);
        assert(stepped.0.polish_latched == (t.polish_latched || held0));
        assert forall|k: int| 0 <= k < snaps.drop_first().len() implies (level(
            #[trigger] snaps.drop_first()[k],
            polish_mask,
        ) == level(snaps[k + 1], polish_mask)) by {}
        if r.0.polish_latched {
            if !t.polish_latched {
                if held0 {
                    assert(level(snaps[0], polish_mask));
                } else {
                    let k = choose|k: int|
                        0 <= k < snaps.drop_first().len() && level(
                            #[trigger] snaps.drop_first()[k],
                            polish_mask,
                        );
                    assert(level(snaps[k + 1], polish_mask));
                }
            }
        } else {
            assert forall|k: int| 0 <= k < snaps.len() implies !level(
                #[trigger] snaps[k],
                polish_mask,
            ) by {
                if k > 0 {
                    assert(snaps.drop_first()[k - 1] == snaps[k]);
                }
            }
        }
    }
}

/// The polish latch law for one full session. A run that starts with the
/// hotkey rising, keeps it held, and ends with one releasing snapshot emits
/// exactly a `Pressed` edge and a `Released` edge, and the release carries
/// `polish == true` exactly if some snapshot while the key was down held the
/// polish modifier. The latch state left by any earlier session does not
/// matter.
pub proof fn lemma_polish_latch(
    t: KeyStateTracker,
    hotkey_mask: u64,
    polish_mask: u64,
    snaps: Seq<u64>,
)
    requires
        !t.was_pressed,
        snaps.len() >= 2,
        forall|k: int| 0 <= k < snaps.len() - 1 ==> level(#[trigger] snaps[k], hotkey_mask),
        !level(snaps[snaps.len() - 1], hotkey_mask),
    ensures
        run_tracker(t, hotkey_mask, polish_mask, snaps).1 =~= seq![
            KeyEdge::Pressed,
            KeyEdge::Released {
                polish: exists|k: int|
                    0 <= k < snaps.len() - 1 && level(#[trigger] snaps[k], polish_mask),
            },
        ],
{
    let stepped = t.spec_step(snaps[0], hotkey_mask, polish_mask);
    assert(level(snaps[0], hotkey_mask));
    assert(stepped.1 == Some(KeyEdge::Pressed));
    let middle = snaps.drop_first().take(snaps.len() - 2);
    let tail = snaps.drop_first();
    assert forall|k: int| 0 <= k < middle.len() implies level(
        #[trigger] middle[k],
        hotkey_mask,
    ) by {
        assert(middle[k] == snaps[k + 1]);
    }
    lemma_run_while_held(stepped.0, hotkey_mask, polish_mask, middle);
    let after_mid = run_tracker(stepped.0, hotkey_mask, polish_mask, middle);
    lemma_run_split(stepped.0, hotkey_mask, polish_mask, middle, tail.skip(middle.len() as int));
    assert(tail =~= middle + tail.skip(middle.len() as int));
    let last_snap = snaps[snaps.len() - 1];
    assert(tail.skip(middle.len() as int) =~= seq![last_snap]);
    let final_step = after_mid.0.spec_step(last_snap, hotkey_mask, polish_mask);
    assert(final_step.1 == Some(KeyEdge::Released { polish: after_mid.0.polish_latched }));
    assert(run_tracker(after_mid.0, hotkey_mask, polish_mask, seq![last_snap]).1 =~= seq![
        KeyEdge::Released { polish: after_mid.0.polish_latched },
    ]) by {
        let single = seq![last_snap];
        assert(single[0] == last_snap);
        assert(single.drop_first() =~= Seq::<u64>::empty());
        assert(run_tracker(final_step.0, hotkey_mask, polish_mask, single.drop_first()).1
            =~= Seq::<KeyEdge>::empty());
    }
    let latched = after_mid.0.polish_latched;
    let claim = exists|k: int|
        0 <= k < snaps.len() - 1 && level(#[trigger] snaps[k], polish_mask);
    let held0 = level(snaps[0], polish_mask);
    assert(latched == (held0 || exists|k: int|
        0 <= k < middle.len() && level(#[trigger] middle[k], polish_mask)));
    if latched {
        if held0 {
        } else {
            let k = choose|k: int|
                0 <= k < middle.len() && level(#[trigger] middle[k], polish_mask);
            assert(middle[k] == snaps[k + 1]);
            assert(level(snaps[k + 1], polish_mask));
        }
        assert(claim);
    } else {
        if claim {
            let k = choose|k: int|
                0 <= k < snaps.len() - 1 && level(#[trigger] snaps[k], polish_mask);
            if k > 0 {
                assert(middle[k - 1] == snaps[k]);
            }
            assert(false);
        }
    }
}

/// Running over a concatenation equals running over the parts in order.
proof fn lemma_run_split(
    t: KeyStateTracker,
    hotkey_mask: u64,
    polish_mask: u64,
    a: Seq<u64>,
    b: Seq<u64>,
)
    ensures
        ({
            let ra = run_tracker(t, hotkey_mask, polish_mask, a);
            let rb = run_tracker(ra.0, hotkey_mask, polish_mask, b);
            run_tracker(t, hotkey_mask, polish_mask, a + b) == (rb.0, ra.1 + rb.1)
        }),
    decreases a.len(),
{
    let ra = run_tracker(t, hotkey_mask, polish_mask, a);
    let rb = run_tracker(ra.0, hotkey_mask, polish_mask, b);
    if a.len() == 0 {
        assert(a + b =~= b);
        assert(ra.1 + rb.1 =~= rb.1);
    } else {
        let stepped = t.spec_step(a[0], hotkey_mask, polish_mask);
        lemma_run_split(stepped.0, hotkey_mask, polish_mask, a.drop_first(), b);
        assert((a + b).drop_first() =~= a.drop_first() + b);
        assert((a + b)[0] == a[0]);
        let ra1 = run_tracker(stepped.0, hotkey_mask, polish_mask, a.drop_first());
        match stepped.1 {
            Some(e) => {
                assert(ra.1 == seq![e] + ra1.1);
                assert(seq![e] + (ra1.1 + rb.1) =~= (seq![e] + ra1.1) + rb.1);
            },
            None => {},
        }
    }
}

} // verus!
