//! Live state of the button panel: which buttons are held, whether the link
//! is up, and how many radio packets went missing.
//!
//! Time is show-clock time in whole microseconds.

use vstd::prelude::*;

use crate::protocol::Frame;
use crate::visual::{VisualInfo, VisualRegistry, VisualRequest};

verus! {

/// Silence from the receiver longer than this counts as a dead link, in
/// microseconds.
pub const LINK_TIMEOUT_US: u64 = 1_500_000;

/// The receiver not hearing the panel for longer than this, in milliseconds,
/// counts the same way.
pub const PANEL_TIMEOUT_MS: u32 = 1_500;

/// Live state of the link and the buttons.
#[derive(Debug, Default)]
pub struct PanelState {
    /// Buttons currently held, one bit each.
    pub buttons: u32,
    /// Buttons held when the show last looked.
    pub previous: u32,
    /// Show-clock time the last usable frame arrived.
    pub last_frame: Option<u64>,
    /// Whether the panel is currently considered reachable.
    pub connected: bool,
    /// Radio packets the transmitter sequence says went missing, since startup.
    pub dropped: u64,
    /// Last sequence number seen from a panel that was being heard.
    pub last_seq: Option<u16>,
}

/// What a call to [`PanelState::receive_frames`] did to the link.
#[derive(Debug, Clone, Copy, PartialEq, Eq, Structural)]
pub enum LinkChange {
    /// The link was down and is now up.
    Connected,
    /// The link was up and has gone quiet; every button was let go.
    Lost,
    /// No change.
    Unchanged,
}

/// The abstract state: every field as a plain value.
pub struct PanelView {
    pub buttons: u32,
    pub previous: u32,
    pub last_frame: Option<u64>,
    pub connected: bool,
    pub dropped: int,
    pub last_seq: Option<u16>,
}

impl PanelState {
    pub open spec fn view_of(&self) -> PanelView {
        PanelView {
            buttons: self.buttons,
            previous: self.previous,
            last_frame: self.last_frame,
            connected: self.connected,
            dropped: self.dropped as int,
            last_seq: self.last_seq,
        }
    }
}

/// Packets missing between sequence `last` and the next one heard, `seq`: the
/// forward distance round the 16-bit counter, less the one that arrived. A
/// repeat is not a loss.
pub open spec fn seq_gap(last: u16, seq: u16) -> int {
    let d = (seq as int - last as int) % 65536;
    if d == 0 {
        0
    } else {
        d - 1
    }
}

/// Whether a frame reports a panel the receiver has heard recently enough.
pub open spec fn panel_fresh(frame: Frame) -> bool {
    frame.panel_age_ms <= PANEL_TIMEOUT_MS
}

/// The state after one frame arrives at time `now`.
///
/// A fresh frame's sequence is compared with the last one to count losses,
/// and its buttons are taken. A stale frame — the receiver repeating a panel
/// it no longer hears — forgets the sequence baseline and releases every
/// button. Either way the link has been heard from.
pub open spec fn after_frame(s: PanelView, frame: Frame, now: u64) -> PanelView {
    if panel_fresh(frame) {
        PanelView {
            buttons: frame.buttons,
            last_frame: Some(now),
            last_seq: Some(frame.seq),
            dropped: match s.last_seq {
                Some(last) => s.dropped + seq_gap(last, frame.seq),
                None => s.dropped,
            },
            ..s
        }
    } else {
        PanelView { buttons: 0, last_frame: Some(now), last_seq: None, ..s }
    }
}

/// The state after a run of frames, oldest first.
pub open spec fn after_frames(s: PanelView, frames: Seq<Frame>, now: u64) -> PanelView
    decreases frames.len(),
{
    if frames.len() == 0 {
        s
    } else {
        after_frame(after_frames(s, frames.drop_last(), now), frames.last(), now)
    }
}

/// Whether a link last heard at `last_frame` is alive at `now`.
pub open spec fn link_alive(last_frame: Option<u64>, now: u64) -> bool {
    match last_frame {
        Some(seen) => now - seen < LINK_TIMEOUT_US,
        None => false,
    }
}

/// One update of the panel: remember the buttons the show saw last time,
/// take in the frames that arrived, then decide whether the link is alive.
/// A link that has just gone quiet lets go of every button.
pub open spec fn panel_update(s: PanelView, frames: Seq<Frame>, now: u64) -> PanelView {
    let t = after_frames(PanelView { previous: s.buttons, ..s }, frames, now);
    let alive = link_alive(t.last_frame, now);
    if alive == t.connected {
        t
    } else if alive {
        PanelView { connected: true, ..t }
    } else {
        PanelView { connected: false, buttons: 0, ..t }
    }
}

proof fn lemma_gap_bounds(last: u16, seq: u16)
    ensures
        0 <= seq_gap(last, seq) <= 65534,
{
}

proof fn lemma_dropped_growth(s: PanelView, frames: Seq<Frame>, now: u64)
    ensures
        s.dropped <= after_frames(s, frames, now).dropped <= s.dropped + 65534 * frames.len(),
    decreases frames.len(),
{
    if frames.len() > 0 {
        lemma_dropped_growth(s, frames.drop_last(), now);
        let t = after_frames(s, frames.drop_last(), now);
        if let Some(last) = t.last_seq {
            lemma_gap_bounds(last, frames.last().seq);
        }
    }
}

fn gap(last: u16, seq: u16) -> (g: u64)
    ensures
        g == seq_gap(last, seq),
{
    let d: u16 = seq.wrapping_sub(last);
    assert(d == (seq as int - last as int) % 65536) by (bit_vector)
        requires d == seq.wrapping_sub(last);
    d.saturating_sub(1) as u64
}

impl PanelState {
    /// Buttons that went down since the previous update.
    pub fn pressed(&self) -> (r: u32)
        ensures
            r == self.buttons & !self.previous,
    {
        self.buttons & !self.previous
    }

    /// Take in one frame that arrived at `now`.
    fn take_frame(&mut self, frame: Frame, now: u64)
        requires
            old(self).dropped + 65534 <= u64::MAX,
        ensures
            final(self).view_of() == after_frame(old(self).view_of(), frame, now),
    {
        if frame.panel_age_ms <= PANEL_TIMEOUT_MS {
            if let Some(last) = self.last_seq {
                let g = gap(last, frame.seq);
                proof {
                    lemma_gap_bounds(last, frame.seq);
                }
                self.dropped = self.dropped + g;
            }
            self.last_seq = Some(frame.seq);
            self.buttons = frame.buttons;
        } else {
            // Sequence zero is sent before the receiver has ever heard the
            // panel; forgetting the baseline across an outage keeps the first
            // packet back from reading as a giant gap.
            self.last_seq = None;
            self.buttons = 0;
        }
        self.last_frame = Some(now);
    }

    /// Take in the frames that arrived since the last update, oldest first, and
    /// notice whether the link has gone quiet.
    pub fn receive_frames(&mut self, frames: &Vec<Frame>, now: u64) -> (change: LinkChange)
        requires
            old(self).dropped + 65534 * frames@.len() <= u64::MAX,
        ensures
            final(self).view_of() == panel_update(old(self).view_of(), frames@, now),
            change == (if old(self).connected == final(self).connected {
                LinkChange::Unchanged
            } else if final(self).connected {
                LinkChange::Connected
            } else {
                LinkChange::Lost
            }),
    {
        let ghost start = PanelView { previous: old(self).buttons, ..old(self).view_of() };
        let was_connected = self.connected;
        self.previous = self.buttons;
        let mut i: usize = 0;
        while i < frames.len()
            invariant
                0 <= i <= frames@.len(),
                self.view_of() == after_frames(start, frames@.take(i as int), now),
                start.dropped + 65534 * frames@.len() <= u64::MAX,
                self.connected == was_connected,
            decreases frames.len() - i,
        {
            proof {
                lemma_dropped_growth(start, frames@.take(i as int), now);
                assert(65534 * i <= 65534 * frames@.len()) by (nonlinear_arith)
                    requires i <= frames@.len();
                assert(frames@.take(i + 1).drop_last() =~= frames@.take(i as int));
            }
            self.take_frame(frames[i], now);
            i = i + 1;
        }
        assert(frames@.take(frames@.len() as int) =~= frames@);
        let alive = match self.last_frame {
            Some(seen) => now < seen || now - seen < LINK_TIMEOUT_US,
            None => false,
        };
        if alive == self.connected {
            return LinkChange::Unchanged;
        }
        if !alive {
            // Everything lets go; the autopilot takes the knobs back on its own.
            self.buttons = 0;
        }
        self.connected = alive;
        if alive {
            LinkChange::Connected
        } else {
            LinkChange::Lost
        }
    }
}

/// What a button on the panel is set to do. The knob targets and steps that
/// go with `Hold` and `Nudge` are the show's own business; what matters here
/// is when each kind of action fires.
#[derive(Debug, Clone, Copy, PartialEq, Eq, Structural)]
pub enum PanelAction {
    /// While held, drive the macro knob with this index toward a target.
    Hold { macro_index: usize },
    /// One step on the macro knob with this index on each press.
    Nudge { macro_index: usize },
    /// Jump to the visual at this position in the registry.
    Select(usize),
    /// Step forwards or backwards through the visuals.
    Cycle(isize),
    /// Tap tempo.
    Tap,
    /// Move the palette on to the next one.
    NextPalette,
    /// Regenerate the current visual's seed.
    Reseed,
    /// Stop and start the modulation.
    Freeze,
    /// Cut to black.
    Blackout,
    /// Wired but unassigned.
    Unmapped,
}

/// Which action each button performs. The index is the bit position in the
/// frame's button mask, so button 0 is the first bit; buttons past the end of
/// the list do nothing.
#[derive(Debug, Clone)]
pub struct PanelMap(pub Vec<PanelAction>);

/// The production mapping: step the visual backwards or forwards, then jump
/// directly to each of the eight visuals.
pub open spec fn default_actions() -> Seq<PanelAction> {
    seq![PanelAction::Cycle(-1isize), PanelAction::Cycle(1isize)] + Seq::new(8, |i: int| PanelAction::Select(i as usize))
}

/// The bring-up mapping: seven buttons each select one visual, then a palette
/// change, a re-seed and a knob hold, effects nobody could mistake.
pub open spec fn distinct_actions() -> Seq<PanelAction> {
    Seq::new(7, |i: int| PanelAction::Select(i as usize)) + seq![
        PanelAction::NextPalette,
        PanelAction::Reseed,
        PanelAction::Hold { macro_index: 0 },
    ]
}

impl PanelMap {
    /// A mapping where every button does something unmistakable; blackout is
    /// left out so that it cannot be hit by accident.
    pub fn distinct() -> (map: PanelMap)
        ensures
            map.0@ == distinct_actions(),
            forall|i: int| 0 <= i < map.0@.len() ==> !(#[trigger] map.0@[i] is Blackout),
    {
        let mut actions: Vec<PanelAction> = Vec::new();
        let mut i: usize = 0;
        while i < 7
            invariant
                0 <= i <= 7,
                actions@ == Seq::new(i as nat, |k: int| PanelAction::Select(k as usize)),
            decreases 7 - i,
        {
            actions.push(PanelAction::Select(i));
            i = i + 1;
        }
        actions.push(PanelAction::NextPalette);
        actions.push(PanelAction::Reseed);
        actions.push(PanelAction::Hold { macro_index: 0 });
        assert(actions@ =~= distinct_actions());
        PanelMap(actions)
    }
}

impl Default for PanelMap {
    /// Navigation first, since its effect is obvious to anybody, then the
    /// eight visuals in registry order.
    fn default() -> (map: PanelMap)
        ensures
            map.0@ == default_actions(),
    {
        let mut actions: Vec<PanelAction> = Vec::new();
        actions.push(PanelAction::Cycle(-1));
        actions.push(PanelAction::Cycle(1));
        let mut i: usize = 0;
        while i < 8
            invariant
                0 <= i <= 8,
                actions@ == seq![PanelAction::Cycle(-1isize), PanelAction::Cycle(1isize)] + Seq::new(
                    i as nat,
                    |k: int| PanelAction::Select(k as usize),
                ),
            decreases 8 - i,
        {
            actions.push(PanelAction::Select(i));
            i = i + 1;
            proof {
                assert(actions@ =~= seq![PanelAction::Cycle(-1isize), PanelAction::Cycle(1isize)] + Seq::new(
                    i as nat,
                    |k: int| PanelAction::Select(k as usize),
                ));
            }
        }
        PanelMap(actions)
    }
}

/// The bit of the button mask that button `button` reads. Buttons past the
/// last bit all read the last bit.
pub open spec fn button_mask(button: int) -> u32 {
    if button < 31 {
        1u32 << (button as u32)
    } else {
        1u32 << 31u32
    }
}

/// Whether an action fires, given whether its button is held and whether it
/// went down since the previous update. A `Hold` acts on every update while
/// its button is held; every other assigned action acts once per press.
pub open spec fn action_fires(action: PanelAction, held: bool, just_pressed: bool) -> bool {
    match action {
        PanelAction::Hold { .. } => held,
        PanelAction::Unmapped => false,
        _ => just_pressed,
    }
}

/// Whether button `i` of `map` fires, given the held and newly pressed masks.
pub open spec fn fires_at(map: Seq<PanelAction>, buttons: u32, pressed: u32, i: int) -> bool {
    action_fires(map[i], buttons & button_mask(i) != 0, pressed & button_mask(i) != 0)
}

/// The buttons among the first `n` of `map` that fire, in button order.
pub open spec fn firing(map: Seq<PanelAction>, buttons: u32, pressed: u32, n: nat) -> Seq<usize>
    decreases n,
{
    if n == 0 {
        seq![]
    } else {
        let before = firing(map, buttons, pressed, (n - 1) as nat);
        if fires_at(map, buttons, pressed, n - 1) {
            before.push((n - 1) as usize)
        } else {
            before
        }
    }
}

/// The bit of the button mask that button `button` reads.
pub fn button_bit(button: usize) -> (bit: u32)
    ensures
        bit == button_mask(button as int),
{
    if button < 31 {
        let shift: u32 = button as u32;
        1u32 << shift
    } else {
        1u32 << 31u32
    }
}

impl PanelState {
    /// The buttons whose mapped action fires on this update, in button order.
    /// Buttons past the end of `map` do nothing.
    pub fn firing_buttons(&self, map: &PanelMap) -> (fired: Vec<usize>)
        ensures
            fired@ == firing(map.0@, self.buttons, self.buttons & !self.previous, map.0@.len()),
    {
        let map = &map.0;
        let pressed = self.pressed();
        let mut fired: Vec<usize> = Vec::new();
        let mut i: usize = 0;
        while i < map.len()
            invariant
                0 <= i <= map@.len(),
                pressed == self.buttons & !self.previous,
                fired@ == firing(map@, self.buttons, pressed, i as nat),
            decreases map.len() - i,
        {
            let bit = button_bit(i);
            let held = self.buttons & bit != 0;
            let just_pressed = pressed & bit != 0;
            let fires = match map[i] {
                PanelAction::Hold { .. } => held,
                PanelAction::Unmapped => false,
                _ => just_pressed,
            };
            if fires {
                fired.push(i);
            }
            i = i + 1;
        }
        fired
    }
}

/// The visual change a fired action asks for, if any: a selection names the
/// registered visual at that position (nothing when there is none), a cycle
/// and a blackout pass straight through, and the other actions move knobs,
/// tempo or palette rather than the visual.
pub open spec fn action_request(entries: Seq<VisualInfo>, action: PanelAction) -> Option<
    VisualRequest,
> {
    match action {
        PanelAction::Select(index) => if index < entries.len() {
            Some(VisualRequest::Show(entries[index as int].id))
        } else {
            None
        },
        PanelAction::Cycle(by) => Some(VisualRequest::Cycle(by)),
        PanelAction::Blackout => Some(VisualRequest::Blackout),
        _ => None,
    }
}

/// The visual changes asked for by the fired buttons `fired` of `map`, in
/// order.
pub open spec fn fired_requests(
    entries: Seq<VisualInfo>,
    map: Seq<PanelAction>,
    fired: Seq<usize>,
) -> Seq<VisualRequest>
    decreases fired.len(),
{
    if fired.len() == 0 {
        seq![]
    } else {
        let before = fired_requests(entries, map, fired.drop_last());
        match action_request(entries, map[fired.last() as int]) {
            Some(request) => before.push(request),
            None => before,
        }
    }
}

/// The visual change a fired action asks for, if any.
pub fn request_for(action: PanelAction, registry: &VisualRegistry) -> (r: Option<VisualRequest>)
    ensures
        r == action_request(registry.view_entries(), action),
{
    match action {
        PanelAction::Select(index) => match registry.get(index) {
            Some(info) => Some(VisualRequest::Show(info.id)),
            None => None,
        },
        PanelAction::Cycle(by) => Some(VisualRequest::Cycle(by)),
        PanelAction::Blackout => Some(VisualRequest::Blackout),
        _ => None,
    }
}

impl PanelState {
    /// The visual changes this update's button presses ask for, in button
    /// order.
    pub fn visual_requests(&self, map: &PanelMap, registry: &VisualRegistry) -> (r: Vec<
        VisualRequest,
    >)
        ensures
            r@ == fired_requests(
                registry.view_entries(),
                map.0@,
                firing(map.0@, self.buttons, self.buttons & !self.previous, map.0@.len()),
            ),
    {
        let fired = self.firing_buttons(map);
        let _mapped: usize = map.0.len();
        let ghost all = firing(map.0@, self.buttons, self.buttons & !self.previous, map.0@.len());
        proof {
            lemma_firing_in_range(map.0@, self.buttons, self.buttons & !self.previous, map.0@.len());
        }
        let mut out: Vec<VisualRequest> = Vec::new();
        let mut k: usize = 0;
        while k < fired.len()
            invariant
                k <= fired@.len(),
                fired@ == all,
                forall|j: int| 0 <= j < all.len() ==> (#[trigger] all[j]) < map.0@.len(),
                out@ == fired_requests(registry.view_entries(), map.0@, fired@.take(k as int)),
            decreases fired.len() - k,
        {
            proof {
                assert(fired@.take(k + 1).drop_last() =~= fired@.take(k as int));
                assert(fired@.take(k + 1).last() == fired@[k as int]);
            }
            let b = fired[k];
            assert(b < map.0@.len());
            if let Some(request) = request_for(map.0[b], registry) {
                out.push(request);
            }
            k = k + 1;
        }
        assert(fired@.take(fired@.len() as int) =~= fired@);
        out
    }
}

proof fn lemma_firing_in_range(map: Seq<PanelAction>, buttons: u32, pressed: u32, n: nat)
    requires
        n <= map.len() <= usize::MAX,
    ensures
        forall|j: int|
            0 <= j < firing(map, buttons, pressed, n).len() ==> (#[trigger] firing(
                map,
                buttons,
                pressed,
                n,
            )[j]) < n,
    decreases n,
{
    if n > 0 {
        lemma_firing_in_range(map, buttons, pressed, (n - 1) as nat);
        let before = firing(map, buttons, pressed, (n - 1) as nat);
        let now = firing(map, buttons, pressed, n);
        assert forall|j: int| 0 <= j < now.len() implies now[j] < n by {
            if j < before.len() {
                assert(now[j] == before[j]);
            }
        }
    }
}

/// A gap of `k` packets forward round the counter is `k - 1` lost, whatever
/// the counter was at, including across the wrap from 65535 to 0.
pub proof fn lemma_gap_counts_missing_packets(last: u16, k: int)
    requires
        1 <= k <= 65535,
    ensures
        seq_gap(last, ((last + k) % 65536) as u16) == k - 1,
{
}

/// A repeated sequence number is not a loss.
pub proof fn lemma_repeat_is_not_a_drop(seq: u16)
    ensures
        seq_gap(seq, seq) == 0,
{
}

/// A press is an edge: only buttons that are held now and were not held at the
/// previous update count as pressed.
pub proof fn lemma_pressed_is_held_and_new(buttons: u32, previous: u32)
    ensures
        (buttons & !previous) & !buttons == 0,
        (buttons & !previous) & previous == 0,
        buttons == previous ==> buttons & !previous == 0,
{
    assert((buttons & !previous) & !buttons == 0) by (bit_vector);
    assert((buttons & !previous) & previous == 0) by (bit_vector);
    assert(buttons == previous ==> buttons & !previous == 0) by (bit_vector);
}

/// Silence releases every button: an update in which no frame arrives and the
/// last one is older than the timeout leaves the link down and nothing held.
pub proof fn lemma_silence_releases_every_button(s: PanelView, now: u64)
    requires
        match s.last_frame {
            Some(seen) => now - seen >= LINK_TIMEOUT_US,
            None => true,
        },
    ensures
        !panel_update(s, seq![], now).connected,
        panel_update(s, seq![], now).buttons == 0 || !s.connected && s.buttons
            == panel_update(s, seq![], now).buttons,
{
}

/// A press acts once: on an update that sees the same buttons held as the
/// previous one, only the `Hold` actions fire, and only for held buttons.
pub proof fn lemma_only_holds_repeat(map: Seq<PanelAction>, buttons: u32, n: nat)
    requires
        n <= map.len() <= usize::MAX,
    ensures
        forall|k: int|
            #![trigger firing(map, buttons, buttons & !buttons, n)[k]]
            0 <= k < firing(map, buttons, buttons & !buttons, n).len() ==> {
                &&& map[firing(map, buttons, buttons & !buttons, n)[k] as int] is Hold
                &&& buttons & button_mask(firing(map, buttons, buttons & !buttons, n)[k] as int)
                    != 0
            },
    decreases n,
{
    let pressed = buttons & !buttons;
    assert(pressed == 0u32) by (bit_vector)
        requires pressed == buttons & !buttons;
    if n > 0 {
        lemma_only_holds_repeat(map, buttons, (n - 1) as nat);
        let before = firing(map, buttons, pressed, (n - 1) as nat);
        let now = firing(map, buttons, pressed, n);
        let m = button_mask(n - 1);
        assert(pressed & m == 0u32) by (bit_vector)
            requires pressed == 0u32;
        assert forall|k: int| 0 <= k < now.len() implies {
            &&& map[now[k] as int] is Hold
            &&& buttons & button_mask(now[k] as int) != 0
        } by {
            if k < before.len() {
                assert(now[k] == before[k]);
            } else {
                assert(fires_at(map, buttons, pressed, n - 1));
                assert(now[k] as int == n - 1);
            }
        }
    }
}

/// Every assigned action other than `Hold` fires exactly on a fresh press,
/// whether or not its button is still held; a `Hold` acts exactly while its
/// button is held; an unassigned button never acts.
pub proof fn lemma_presses_act_once(action: PanelAction, held: bool, just_pressed: bool)
    ensures
        !(action is Hold) && !(action is Unmapped) ==> action_fires(action, held, true)
            && !action_fires(action, held, false),
        action is Hold ==> action_fires(action, held, just_pressed) == held,
        action is Unmapped ==> !action_fires(action, held, just_pressed),
{
}

proof fn lemma_firing_contains(map: Seq<PanelAction>, buttons: u32, pressed: u32, n: nat, i: int)
    requires
        n <= map.len() <= usize::MAX,
        0 <= i < n,
    ensures
        firing(map, buttons, pressed, n).contains(i as usize) == fires_at(map, buttons, pressed, i),
    decreases n,
{
    lemma_firing_in_range(map, buttons, pressed, (n - 1) as nat);
    let before = firing(map, buttons, pressed, (n - 1) as nat);
    let now = firing(map, buttons, pressed, n);
    if i < n - 1 {
        lemma_firing_contains(map, buttons, pressed, (n - 1) as nat, i);
        if fires_at(map, buttons, pressed, n - 1) {
            assert(now == before.push((n - 1) as usize));
            if before.contains(i as usize) {
                let j = choose|j: int| 0 <= j < before.len() && before[j] == i as usize;
                assert(now[j] == i as usize);
            }
            if now.contains(i as usize) {
                let j = choose|j: int| 0 <= j < now.len() && now[j] == i as usize;
                if j < before.len() {
                    assert(before[j] == i as usize);
                } else {
                    assert(now[j] == (n - 1) as usize);
                }
            }
        }
    } else {
        if fires_at(map, buttons, pressed, n - 1) {
            assert(now[before.len() as int] == (n - 1) as usize);
        } else {
            if now.contains(i as usize) {
                let j = choose|j: int| 0 <= j < now.len() && now[j] == i as usize;
                assert(before[j] < n - 1);
            }
        }
    }
}

/// The buttons that fire on an update, in terms of the held masks before and
/// now: a button mapped to anything but a hold fires exactly when its bit went
/// from up to down since the previous update; a hold fires exactly while its
/// bit is down; an unassigned button never fires.
pub proof fn lemma_which_buttons_fire(map: Seq<PanelAction>, buttons: u32, previous: u32, i: int)
    requires
        0 <= i < map.len() <= usize::MAX,
    ensures
        ({
            let fired = firing(map, buttons, buttons & !previous, map.len());
            let m = button_mask(i);
            &&& !(map[i] is Hold) && !(map[i] is Unmapped) ==> (fired.contains(i as usize) <==> (
            buttons & m != 0 && previous & m == 0))
            &&& map[i] is Hold ==> (fired.contains(i as usize) <==> buttons & m != 0)
            &&& map[i] is Unmapped ==> !fired.contains(i as usize)
        }),
{
    lemma_firing_contains(map, buttons, buttons & !previous, map.len(), i);
    let m = button_mask(i);
    let shift: u32 = if i < 31 {
        i as u32
    } else {
        31
    };
    assert(m == 1u32 << shift);
    assert((buttons & !previous) & m != 0 <==> (buttons & m != 0 && previous & m == 0))
        by (bit_vector)
        requires
            m == 1u32 << shift,
            shift < 32,
    ;
}

/// Losses are counted the same however the frames are split across updates:
/// frames `a` taken on one update and `b` on the next leave the same loss
/// count and the same sequence baseline as `a` and then `b` taken together.
pub proof fn lemma_split_updates_count_the_same(
    s: PanelView,
    a: Seq<Frame>,
    b: Seq<Frame>,
    t1: u64,
    t2: u64,
)
    ensures
        panel_update(panel_update(s, a, t1), b, t2).dropped == panel_update(s, a + b, t2).dropped,
        panel_update(panel_update(s, a, t1), b, t2).last_seq == panel_update(s, a + b, t2).last_seq,
{
    let s0 = PanelView { previous: s.buttons, ..s };
    let u = panel_update(s, a, t1);
    let u0 = PanelView { previous: u.buttons, ..u };
    lemma_after_frames_appends(s0, a, b, t1, t2);
    lemma_losses_ignore_the_rest(u0, after_frames(s0, a, t1), b, t2, t2);
    lemma_losses_ignore_the_rest(
        PanelView { previous: s.buttons, ..s },
        s0,
        a + b,
        t2,
        t2,
    );
}

proof fn lemma_after_frames_appends(s: PanelView, a: Seq<Frame>, b: Seq<Frame>, t1: u64, t2: u64)
    ensures
        after_frames(after_frames(s, a, t1), b, t2).dropped == after_frames(s, a + b, t2).dropped,
        after_frames(after_frames(s, a, t1), b, t2).last_seq == after_frames(s, a + b, t2).last_seq,
    decreases b.len(),
{
    if b.len() == 0 {
        assert(a + b =~= a);
        lemma_losses_ignore_the_rest(s, s, a, t1, t2);
    } else {
        lemma_after_frames_appends(s, a, b.drop_last(), t1, t2);
        assert((a + b).drop_last() =~= a + b.drop_last());
        assert((a + b).last() == b.last());
    }
}

/// The loss count and sequence baseline after a run of frames depend only on
/// the count and baseline before it, not on the time or the other fields.
proof fn lemma_losses_ignore_the_rest(s1: PanelView, s2: PanelView, f: Seq<Frame>, t1: u64, t2: u64)
    requires
        s1.dropped == s2.dropped,
        s1.last_seq == s2.last_seq,
    ensures
        after_frames(s1, f, t1).dropped == after_frames(s2, f, t2).dropped,
        after_frames(s1, f, t1).last_seq == after_frames(s2, f, t2).last_seq,
    decreases f.len(),
{
    if f.len() > 0 {
        lemma_losses_ignore_the_rest(s1, s2, f.drop_last(), t1, t2);
    }
}

/// An update leaves the sequence baseline at the last frame heard: the
/// sequence of the last frame when it was fresh, none when it was stale, and
/// the baseline unchanged when no frame arrived.
pub proof fn lemma_baseline_is_the_last_frame(s: PanelView, frames: Seq<Frame>, now: u64)
    ensures
        frames.len() == 0 ==> panel_update(s, frames, now).last_seq == s.last_seq,
        frames.len() > 0 && frames.last().panel_age_ms <= PANEL_TIMEOUT_MS ==> panel_update(
            s,
            frames,
            now,
        ).last_seq == Some(frames.last().seq),
        frames.len() > 0 && frames.last().panel_age_ms > PANEL_TIMEOUT_MS ==> panel_update(
            s,
            frames,
            now,
        ).last_seq is None,
{
}

} // verus!
