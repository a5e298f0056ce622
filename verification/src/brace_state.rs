//! Shared `{...}` brace / branch / per-channel octave state machine.
//!
//! Inside a conditional block `{a/b/c}` each branch addresses its own
//! channel: octave changes inside one branch (`{c/e/>g}`) affect only
//! that branch's channel, while `>` or `oN` outside a block shift every
//! channel together.

use vstd::prelude::*;

verus! {

/// The abstract state of a [`BraceState`].
pub struct BraceModel {
    /// Nesting depth of open `{` blocks.
    pub depth: int,
    /// Index of the current branch in the innermost block.
    pub branch: int,
    /// `-1` outside any block, otherwise the channel of the branch.
    pub cur: int,
    /// Octave shared by all channels outside blocks.
    pub shared: int,
    /// Per-channel octaves.
    pub octaves: Seq<i32>,
    /// Number of channels (at least 1).
    pub width: int,
}

/// Per-channel octave plus branch-tracking state inside `{...}` blocks.
#[derive(Debug, Clone)]
pub struct BraceState {
    brace_depth: u32,
    branch_idx: usize,
    /// `-1` means "outside any `{...}`"; otherwise a 0-based branch index.
    cur_channel: i32,
    shared_octave: i32,
    channel_octave: Vec<i32>,
    num_channels: usize,
}

impl View for BraceState {
    type V = BraceModel;

    closed spec fn view(&self) -> BraceModel {
        BraceModel {
            depth: self.brace_depth as int,
            branch: self.branch_idx as int,
            cur: self.cur_channel as int,
            shared: self.shared_octave as int,
            octaves: self.channel_octave@,
            width: self.num_channels as int,
        }
    }
}

/// The channel whose octave a note at this state uses, if inside a
/// block branch that maps to a channel.
pub open spec fn model_active(m: BraceModel) -> Option<int> {
    if m.cur < 0 || m.cur >= m.octaves.len() { None } else { Some(m.cur) }
}

/// Well-formed state: one octave per channel and at least one channel.
pub open spec fn model_wf(m: BraceModel) -> bool {
    &&& m.width >= 1
    &&& m.octaves.len() == m.width
    &&& m.depth >= 0
    &&& m.branch >= 0
}

/// Octave change on the active channel, or on every channel (and the
/// shared octave) outside blocks.
pub open spec fn model_apply(m: BraceModel, f: spec_fn(int) -> int) -> BraceModel {
    match model_active(m) {
        Some(c) => BraceModel { octaves: m.octaves.update(c, f(m.octaves[c] as int) as i32), ..m },
        None => BraceModel {
            shared: f(m.shared),
            octaves: Seq::new(m.octaves.len(), |i: int| f(m.octaves[i] as int) as i32),
            ..m
        },
    }
}

/// After `{`: one level deeper, first branch, channel 0 when there are
/// several channels.
pub open spec fn model_open(m: BraceModel) -> BraceModel {
    BraceModel { depth: m.depth + 1, branch: 0, cur: if m.width > 1 { 0 } else { -1 }, ..m }
}

/// After `/`: next branch, which becomes the current channel while it
/// names one.
pub open spec fn model_slash(m: BraceModel) -> BraceModel {
    BraceModel {
        branch: m.branch + 1,
        cur: if m.width > 1 && m.branch + 1 < m.width { ((m.branch + 1) as i32) as int } else { m.cur },
        ..m
    }
}

/// After `}`: one level shallower; leaving the outermost block leaves
/// every channel. No change outside blocks.
pub open spec fn model_close(m: BraceModel) -> BraceModel {
    if m.depth == 0 {
        m
    } else {
        BraceModel { depth: m.depth - 1, cur: if m.depth - 1 == 0 { -1 } else { m.cur }, ..m }
    }
}

/// After `oN`.
pub open spec fn model_set(m: BraceModel, oct: i32) -> BraceModel {
    model_apply(m, |o: int| oct as int)
}

/// After `>` (`delta = 1`) or `<` (`delta = -1`).
pub open spec fn model_shift(m: BraceModel, delta: i32) -> BraceModel {
    model_apply(m, |o: int| o + delta)
}

/// A shift by `delta` keeps every affected octave in `i32`.
pub open spec fn shift_fits(m: BraceModel, delta: i32) -> bool {
    match model_active(m) {
        Some(c) => i32::MIN <= m.octaves[c] + delta <= i32::MAX,
        None => i32::MIN <= m.shared + delta <= i32::MAX
            && forall|i: int| 0 <= i < m.octaves.len() ==> i32::MIN <= #[trigger] m.octaves[i] + delta <= i32::MAX,
    }
}

/// What every reachable state satisfies: well formed, and a branch
/// channel is current only when there are several channels.
pub open spec fn model_reachable(m: BraceModel) -> bool {
    model_wf(m) && (m.cur >= 0 ==> m.width > 1)
}

/// A fresh state (no block open, every channel at one octave) satisfies
/// [`model_reachable`], and every operation keeps it; in such a state a
/// channel is active only when there are several channels, it is one of
/// them, and the current octave is that channel's (else the shared one).
pub proof fn law_active_only_with_several_channels(m: BraceModel, width: int, o: i32, oct: i32, delta: i32)
    requires
        model_reachable(m),
        width >= 1,
    ensures
        model_reachable(BraceModel { depth: 0, branch: 0, cur: -1, shared: o as int, octaves: Seq::new(width as nat, |i: int| o), width }),
        model_reachable(model_open(m)),
        model_reachable(model_slash(m)),
        model_reachable(model_close(m)),
        model_reachable(model_set(m, oct)),
        model_reachable(model_shift(m, delta)),
        model_active(m) matches Some(c) ==> 0 <= c < m.width && m.width > 1 && m.octaves.len() == m.width,
{
}

/// Inside a block branch, an octave shift moves only that branch's
/// channel; every other channel keeps its octave.
pub proof fn law_branch_shift_is_local(m: BraceModel, delta: i32, k: int)
    requires
        model_wf(m),
        model_active(m) is Some,
        shift_fits(m, delta),
        0 <= k < m.octaves.len(),
    ensures
        k == model_active(m).unwrap() ==> model_shift(m, delta).octaves[k] == m.octaves[k] + delta,
        k != model_active(m).unwrap() ==> model_shift(m, delta).octaves[k] == m.octaves[k],
        model_shift(m, delta).shared == m.shared,
{
}

/// Outside any block branch, an octave shift moves every channel and the
/// shared octave together.
pub proof fn law_outside_shift_moves_all(m: BraceModel, delta: i32, k: int)
    requires
        model_wf(m),
        model_active(m) is None,
        shift_fits(m, delta),
        0 <= k < m.octaves.len(),
    ensures
        model_shift(m, delta).octaves[k] == m.octaves[k] + delta,
        model_shift(m, delta).shared == m.shared + delta,
{
}

/// Opening and closing a block from outside any block returns to the
/// outside state, with every octave unchanged.
pub proof fn law_open_close_outside(m: BraceModel)
    requires
        model_wf(m),
        m.depth == 0,
    ensures
        model_close(model_open(m)).depth == 0,
        model_active(model_close(model_open(m))) is None,
        model_close(model_open(m)).octaves == m.octaves,
        model_close(model_open(m)).shared == m.shared,
{
}

impl BraceState {
    pub closed spec fn wf(&self) -> bool {
        model_wf(self@) && self.shared_octave as int == self@.shared
    }

    /// New state with every channel at `initial_octave` and the cursor
    /// outside any brace. `num_channels` is clamped to `>= 1`.
    pub fn new(num_channels: usize, initial_octave: i32) -> (r: Self)
        ensures
            r.wf(),
            r@.depth == 0,
            r@.branch == 0,
            r@.cur == -1,
            r@.shared == initial_octave,
            r@.width == (if num_channels < 1 { 1 } else { num_channels as int }),
            r@.octaves == Seq::new(r@.width as nat, |i: int| initial_octave),
    {
        let width = if num_channels < 1 { 1 } else { num_channels };
        let mut v: Vec<i32> = Vec::new();
        let mut i: usize = 0;
        while i < width
            invariant
                i <= width,
                v@ == Seq::new(i as nat, |j: int| initial_octave),
            decreases width - i,
        {
            v.push(initial_octave);
            assert(v@ =~= Seq::new((i + 1) as nat, |j: int| initial_octave));
            i += 1;
        }
        let r = Self {
            brace_depth: 0,
            branch_idx: 0,
            cur_channel: -1,
            shared_octave: initial_octave,
            channel_octave: v,
            num_channels: width,
        };
        r
    }

    /// A state assembled from its parts.
    pub(crate) fn from_parts(depth: u32, branch: usize, cur: i32, shared: i32, octaves: Vec<i32>, width: usize) -> (r: Self)
        requires
            width >= 1,
            octaves@.len() == width,
        ensures
            r.wf(),
            r@ == (BraceModel { depth: depth as int, branch: branch as int, cur: cur as int, shared: shared as int, octaves: octaves@, width: width as int }),
    {
        Self { brace_depth: depth, branch_idx: branch, cur_channel: cur, shared_octave: shared, channel_octave: octaves, num_channels: width }
    }

    /// A copy of this state.
    pub fn duplicate(&self) -> (r: Self)
        ensures
            r@ == self@,
            self.wf() ==> r.wf(),
    {
        Self {
            brace_depth: self.brace_depth,
            branch_idx: self.branch_idx,
            cur_channel: self.cur_channel,
            shared_octave: self.shared_octave,
            channel_octave: self.channel_octave.clone(),
            num_channels: self.num_channels,
        }
    }

    pub fn brace_depth(&self) -> (r: u32)
        ensures
            r == self@.depth,
    {
        self.brace_depth
    }

    pub fn branch_idx(&self) -> (r: usize)
        ensures
            r == self@.branch,
    {
        self.branch_idx
    }

    /// `Some(idx)` while inside a `{...}` whose branch maps to a real
    /// channel, otherwise `None`.
    pub fn active_channel(&self) -> (r: Option<usize>)
        ensures
            match r {
                Some(k) => model_active(self@) == Some(k as int) && k < self@.octaves.len(),
                None => model_active(self@) is None,
            },
    {
        if self.cur_channel < 0 {
            return None;
        }
        let c = self.cur_channel as usize;
        if c >= self.channel_octave.len() {
            None
        } else {
            Some(c)
        }
    }

    pub fn shared_octave(&self) -> (r: i32)
        ensures
            r == self@.shared,
    {
        self.shared_octave
    }

    pub fn channel_octave(&self) -> (r: &[i32])
        ensures
            r@ == self@.octaves,
    {
        self.channel_octave.as_slice()
    }

    pub fn num_channels(&self) -> (r: usize)
        ensures
            r == self@.width,
    {
        self.num_channels
    }

    /// The effective octave at the cursor: channel-local while inside a
    /// `{...}` branch, shared otherwise.
    pub fn current_octave(&self) -> (r: i32)
        ensures
            r == match model_active(self@) {
                Some(c) => self@.octaves[c] as int,
                None => self@.shared,
            },
    {
        match self.active_channel() {
            Some(c) => self.channel_octave[c],
            None => self.shared_octave,
        }
    }

    /// `(channel, octave)` of the active branch; `None` outside any brace.
    pub fn active_snapshot(&self) -> (r: Option<(usize, i32)>)
        ensures
            match model_active(self@) {
                Some(c) => r == Some((c as usize, self@.octaves[c])),
                None => r is None,
            },
    {
        match self.active_channel() {
            Some(c) => Some((c, self.channel_octave[c])),
            None => None,
        }
    }

    /// Open a `{` conditional. `prev_byte` is the preceding source byte;
    /// after `_` the brace opens a key-signature block, so nothing changes.
    pub fn on_open_brace(&mut self, prev_byte: u8)
        requires
            old(self).wf(),
            prev_byte != 0x5Fu8 ==> old(self)@.depth < u32::MAX,
        ensures
            final(self).wf(),
            final(self)@ == (if prev_byte == 0x5Fu8 { old(self)@ } else { model_open(old(self)@) }),
    {
        if prev_byte == 0x5Fu8 {
            return;
        }
        self.brace_depth += 1;
        self.branch_idx = 0;
        self.cur_channel = if self.num_channels > 1 { 0 } else { -1 };
    }

    /// Advance to the next branch. Returns the snapshot of the branch
    /// just left.
    pub fn on_slash(&mut self) -> (r: Option<(usize, i32)>)
        requires
            old(self).wf(),
            old(self)@.branch < usize::MAX,
        ensures
            final(self).wf(),
            final(self)@ == model_slash(old(self)@),
            match model_active(old(self)@) {
                Some(c) => r == Some((c as usize, old(self)@.octaves[c])),
                None => r is None,
            },
            r matches Some((k, o)) ==> model_active(old(self)@) == Some(k as int) && o == old(self)@.octaves[k as int],
    {
        let closing = self.active_snapshot();
        self.branch_idx += 1;
        if self.num_channels > 1 && self.branch_idx < self.num_channels {
            self.cur_channel = #[verifier::truncate] (self.branch_idx as i32);
        }
        closing
    }

    /// Close a `}` (no-op outside braces). Returns the snapshot of the
    /// branch just left.
    pub fn on_close_brace(&mut self) -> (r: Option<(usize, i32)>)
        requires
            old(self).wf(),
        ensures
            final(self).wf(),
            final(self)@ == model_close(old(self)@),
            match model_active(old(self)@) {
                Some(c) => old(self)@.depth > 0 && r == Some((c as usize, old(self)@.octaves[c])),
                None => r is None,
            } || (old(self)@.depth == 0 && r is None),
            r matches Some((k, o)) ==> model_active(old(self)@) == Some(k as int) && o == old(self)@.octaves[k as int],
            old(self)@.depth > 0 && model_active(old(self)@) is Some ==> r is Some,
    {
        if self.brace_depth == 0 {
            return None;
        }
        let closing = self.active_snapshot();
        self.brace_depth -= 1;
        if self.brace_depth == 0 {
            self.cur_channel = -1;
        }
        closing
    }

    /// `oN`: explicit octave set, channel-local inside a branch and on
    /// every channel outside.
    pub fn on_octave_set(&mut self, oct: i32)
        requires
            old(self).wf(),
        ensures
            final(self).wf(),
            final(self)@ == model_set(old(self)@, oct),
    {
        match self.active_channel() {
            Some(c) => {
                self.channel_octave.set(c, oct);
            },
            None => {
                self.shared_octave = oct;
                let mut i: usize = 0;
                while i < self.channel_octave.len()
                    invariant
                        i <= self.channel_octave@.len(),
                        self.channel_octave@.len() == old(self).channel_octave@.len(),
                        self.brace_depth == old(self).brace_depth,
                        self.branch_idx == old(self).branch_idx,
                        self.cur_channel == old(self).cur_channel,
                        self.num_channels == old(self).num_channels,
                        self.shared_octave == oct,
                        forall|j: int| 0 <= j < i ==> self.channel_octave@[j] == oct,
                        forall|j: int| i <= j < self.channel_octave@.len() ==> self.channel_octave@[j] == old(self).channel_octave@[j],
                    decreases self.channel_octave@.len() - i,
                {
                    self.channel_octave.set(i, oct);
                    i += 1;
                }
            },
        }
        assert(self@.octaves =~= model_set(old(self)@, oct).octaves);
        assert(self@ == model_set(old(self)@, oct));
    }

    /// `>` (`delta = +1`) or `<` (`delta = -1`).
    pub fn on_octave_shift(&mut self, delta: i32)
        requires
            old(self).wf(),
            shift_fits(old(self)@, delta),
        ensures
            final(self).wf(),
            final(self)@ == model_shift(old(self)@, delta),
    {
        match self.active_channel() {
            Some(c) => {
                let v = self.channel_octave[c] + delta;
                self.channel_octave.set(c, v);
            },
            None => {
                self.shared_octave = self.shared_octave + delta;
                let mut i: usize = 0;
                while i < self.channel_octave.len()
                    invariant
                        i <= self.channel_octave@.len(),
                        self.channel_octave@.len() == old(self).channel_octave@.len(),
                        self.brace_depth == old(self).brace_depth,
                        self.branch_idx == old(self).branch_idx,
                        self.cur_channel == old(self).cur_channel,
                        self.num_channels == old(self).num_channels,
                        self.shared_octave == old(self).shared_octave + delta,
                        shift_fits(old(self)@, delta),
                        model_active(old(self)@) is None,
                        old(self)@.octaves == old(self).channel_octave@,
                        forall|j: int| 0 <= j < i ==> self.channel_octave@[j] == old(self).channel_octave@[j] + delta,
                        forall|j: int| i <= j < self.channel_octave@.len() ==> self.channel_octave@[j] == old(self).channel_octave@[j],
                    decreases self.channel_octave@.len() - i,
                {
                    let v = self.channel_octave[i] + delta;
                    self.channel_octave.set(i, v);
                    i += 1;
                }
            },
        }
        assert(self@.octaves =~= model_shift(old(self)@, delta).octaves);
        assert(self@ == model_shift(old(self)@, delta));
    }
}

} // verus!
