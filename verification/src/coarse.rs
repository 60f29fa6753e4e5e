//! Wide tiles and their commands: what the scheduler reads.

use vstd::prelude::*;
use crate::tile::WIDE_TILE_WIDTH;

verus! {

/// A paint of a fill.
#[derive(Debug, Clone, Copy, PartialEq, Eq, Structural)]
pub enum Paint {
    /// A solid colour: premultiplied RGBA8 packed into a word, alpha in the
    /// high byte.
    Solid(u32),
    /// An entry of a table of gradients and images.
    Indexed(usize),
}

/// Fills `width` pixels from `x` with a paint, at full coverage.
#[derive(Debug, Clone, Copy, PartialEq, Eq, Structural)]
pub struct CmdFill {
    pub x: u16,
    pub width: u16,
    pub paint: Paint,
}

/// Fills `width` pixels from `x` with a paint, through the coverage that
/// starts at `alpha_idx` in the alpha buffer.
#[derive(Debug, Clone, Copy, PartialEq, Eq, Structural)]
pub struct CmdAlphaFill {
    pub x: u16,
    pub width: u16,
    pub alpha_idx: usize,
    pub paint: Paint,
}

/// Copies `width` pixels from `x` of the current layer into the layer below,
/// at full coverage.
#[derive(Debug, Clone, Copy, PartialEq, Eq, Structural)]
pub struct CmdClipFill {
    pub x: u32,
    pub width: u32,
}

/// Copies `width` pixels from `x` of the current layer into the layer below,
/// through the coverage that starts at `alpha_idx` in the alpha buffer.
#[derive(Debug, Clone, Copy, PartialEq, Eq, Structural)]
pub struct CmdClipAlphaFill {
    pub x: u32,
    pub width: u32,
    pub alpha_idx: usize,
}

/// A command of a wide tile.
#[derive(Debug, Clone, Copy, PartialEq, Eq, Structural)]
pub enum Cmd {
    Fill(CmdFill),
    AlphaFill(CmdAlphaFill),
    /// Begins a layer.
    PushBuf,
    /// Ends the current layer.
    PopBuf,
    ClipFill(CmdClipFill),
    ClipStrip(CmdClipAlphaFill),
}

/// Whether a span of `width` pixels from `x` lies within a wide tile.
pub open spec fn span_fits(x: int, width: int) -> bool {
    x < WIDE_TILE_WIDTH && x + width <= WIDE_TILE_WIDTH
}

impl Cmd {
    /// Whether the pixels that the command touches lie within a wide tile.
    pub open spec fn fits(self) -> bool {
        match self {
            Cmd::Fill(fill) => span_fits(fill.x as int, fill.width as int),
            Cmd::AlphaFill(fill) => span_fits(fill.x as int, fill.width as int),
            Cmd::ClipFill(clip) => span_fits(clip.x as int, clip.width as int),
            Cmd::ClipStrip(clip) => span_fits(clip.x as int, clip.width as int),
            Cmd::PushBuf => true,
            Cmd::PopBuf => true,
        }
    }

    /// Whether the command works on a layer, so that one has to be open.
    pub open spec fn needs_layer(self) -> bool {
        self is PopBuf || self is ClipFill || self is ClipStrip
    }

    /// By how much the command changes the clip depth.
    pub open spec fn depth_change(self) -> int {
        match self {
            Cmd::PushBuf => 1,
            Cmd::PopBuf => -1,
            _ => 0,
        }
    }

    /// Returns whether the pixels that the command touches lie within a wide
    /// tile.
    pub fn check_fits(&self) -> (fits: bool)
        ensures
            fits == self.fits(),
    {
        match self {
            Cmd::Fill(fill) => fill.x < WIDE_TILE_WIDTH && fill.width <= WIDE_TILE_WIDTH - fill.x,
            Cmd::AlphaFill(fill) => fill.x < WIDE_TILE_WIDTH && fill.width <= WIDE_TILE_WIDTH
                - fill.x,
            Cmd::ClipFill(clip) => clip.x < WIDE_TILE_WIDTH as u32 && clip.width
                <= WIDE_TILE_WIDTH as u32 - clip.x,
            Cmd::ClipStrip(clip) => clip.x < WIDE_TILE_WIDTH as u32 && clip.width
                <= WIDE_TILE_WIDTH as u32 - clip.x,
            Cmd::PushBuf => true,
            Cmd::PopBuf => true,
        }
    }
}

/// The clip depth after the commands: 1 for the final target, one more for
/// each layer that is open.
pub open spec fn depth_after(cmds: Seq<Cmd>) -> int
    decreases cmds.len(),
{
    if cmds.len() == 0 {
        1
    } else {
        depth_after(cmds.drop_last()) + cmds.last().depth_change()
    }
}

/// Whether every command that works on a layer finds one open.
pub open spec fn layered(cmds: Seq<Cmd>) -> bool {
    forall|i: int|
        0 <= i < cmds.len() && (#[trigger] cmds[i]).needs_layer() ==> depth_after(cmds.take(i))
            >= 2
}

/// What a wide tile holds: its background and its commands.
pub struct WideTileView {
    pub bg: u32,
    pub cmds: Seq<Cmd>,
}

impl WideTileView {
    /// Whether the commands can be scheduled: each fits the tile and finds the
    /// layer it works on.
    pub open spec fn wf(self) -> bool {
        &&& forall|i: int| 0 <= i < self.cmds.len() ==> (#[trigger] self.cmds[i]).fits()
        &&& layered(self.cmds)
    }

    /// Whether every layer that the commands open is closed again.
    pub open spec fn balanced(self) -> bool {
        depth_after(self.cmds) == 1
    }

    /// Whether `push` takes the command.
    pub open spec fn accepts(self, cmd: Cmd) -> bool {
        &&& cmd.fits()
        &&& cmd.needs_layer() ==> depth_after(self.cmds) >= 2
        &&& self.cmds.len() + 2 < usize::MAX
    }
}

/// A wide tile: 256 by 4 pixels with a background and a list of commands.
#[derive(Debug)]
pub struct WideTile {
    bg: u32,
    cmds: Vec<Cmd>,
    depth: usize,
}

impl View for WideTile {
    type V = WideTileView;

    closed spec fn view(&self) -> WideTileView {
        WideTileView { bg: self.bg, cmds: self.cmds@ }
    }
}

/// Appending a command changes the depth by that command's change, and keeps
/// the commands layered if the new one finds its layer.
pub proof fn lemma_push_cmd(cmds: Seq<Cmd>, cmd: Cmd)
    ensures
        depth_after(cmds.push(cmd)) == depth_after(cmds) + cmd.depth_change(),
        layered(cmds) && (cmd.needs_layer() ==> depth_after(cmds) >= 2) ==> layered(cmds.push(cmd)),
{
    assert(cmds.push(cmd).drop_last() =~= cmds);
    if layered(cmds) && (cmd.needs_layer() ==> depth_after(cmds) >= 2) {
        let pushed = cmds.push(cmd);
        assert forall|i: int| 0 <= i < pushed.len() && (#[trigger] pushed[i]).needs_layer() implies depth_after(
            pushed.take(i),
        ) >= 2 by {
            if i < cmds.len() {
                assert(pushed.take(i) =~= cmds.take(i));
                assert(cmds[i].needs_layer());
            } else {
                assert(pushed.take(i) =~= cmds);
            }
        }
    }
}

/// Among layered commands the depth is at least 1 after every prefix, and at
/// most one more than the number of commands.
pub proof fn lemma_depth_bounds(cmds: Seq<Cmd>, n: int)
    requires
        layered(cmds),
        0 <= n <= cmds.len(),
    ensures
        1 <= depth_after(cmds.take(n)) <= n + 1,
        n < cmds.len() ==> depth_after(cmds.take(n + 1)) == depth_after(cmds.take(n))
            + cmds[n].depth_change(),
    decreases n,
{
    if n > 0 {
        lemma_depth_bounds(cmds, n - 1);
        assert(cmds.take(n).drop_last() =~= cmds.take(n - 1));
        assert(cmds.take(n).last() == cmds[n - 1]);
        assert(cmds[n - 1].needs_layer() ==> depth_after(cmds.take(n - 1)) >= 2);
    }
    if n < cmds.len() {
        assert(cmds.take(n + 1).drop_last() =~= cmds.take(n));
        assert(cmds.take(n + 1).last() == cmds[n]);
    }
}

impl WideTile {
    /// Whether the tile's commands can be scheduled.
    pub closed spec fn wf(&self) -> bool {
        &&& self@.wf()
        &&& self.depth == depth_after(self.cmds@)
        &&& self.cmds.len() + 1 < usize::MAX
    }

    /// A tile whose commands can be scheduled has fewer than `usize::MAX - 1`
    /// of them.
    pub proof fn lemma_wf(&self)
        requires
            self.wf(),
        ensures
            self@.wf(),
            self@.cmds.len() + 1 < usize::MAX,
    {
    }

    /// Creates a wide tile with the given background and no commands.
    pub fn new(bg: u32) -> (tile: WideTile)
        ensures
            tile.wf(),
            tile@ == (WideTileView { bg, cmds: Seq::empty() }),
    {
        WideTile { bg, cmds: Vec::new(), depth: 1 }
    }

    /// Returns the background colour: premultiplied RGBA8 packed into a word.
    pub fn bg(&self) -> (bg: u32)
        ensures
            bg == self@.bg,
    {
        self.bg
    }

    /// Sets the background colour.
    pub fn set_bg(&mut self, bg: u32)
        ensures
            final(self)@ == (WideTileView { bg, ..old(self)@ }),
            old(self).wf() ==> final(self).wf(),
    {
        self.bg = bg;
    }

    /// Returns the commands.
    pub fn cmds(&self) -> (cmds: &Vec<Cmd>)
        ensures
            cmds@ == self@.cmds,
    {
        &self.cmds
    }

    /// Returns the clip depth after the commands.
    pub fn depth(&self) -> (depth: usize)
        requires
            self.wf(),
        ensures
            depth == depth_after(self@.cmds),
    {
        self.depth
    }

    /// Returns whether every layer that the commands open is closed again.
    pub fn is_balanced(&self) -> (balanced: bool)
        requires
            self.wf(),
        ensures
            balanced == self@.balanced(),
    {
        self.depth == 1
    }

    /// Appends a command, if it fits the tile and finds the layer it works on.
    /// Returns whether it was appended.
    pub fn push(&mut self, cmd: Cmd) -> (accepted: bool)
        requires
            old(self).wf(),
        ensures
            final(self).wf(),
            accepted == old(self)@.accepts(cmd),
            accepted ==> final(self)@ == (WideTileView {
                cmds: old(self)@.cmds.push(cmd),
                ..old(self)@
            }),
            !accepted ==> final(self)@ == old(self)@,
    {
        proof {
            lemma_push_cmd(self.cmds@, cmd);
            lemma_depth_bounds(self.cmds@, self.cmds@.len() as int);
            assert(self.cmds@.take(self.cmds@.len() as int) =~= self.cmds@);
        }
        if !cmd.check_fits() || self.cmds.len() >= usize::MAX - 2 {
            return false;
        }
        match cmd {
            Cmd::PushBuf => {
                self.depth = self.depth + 1;
            },
            Cmd::PopBuf => {
                if self.depth < 2 {
                    return false;
                }
                self.depth = self.depth - 1;
            },
            Cmd::ClipFill(_) => {
                if self.depth < 2 {
                    return false;
                }
            },
            Cmd::ClipStrip(_) => {
                if self.depth < 2 {
                    return false;
                }
            },
            _ => {},
        }
        self.cmds.push(cmd);
        true
    }

    /// Removes all commands and sets the background to transparent.
    pub fn reset(&mut self)
        ensures
            final(self).wf(),
            final(self)@ == (WideTileView { bg: 0, cmds: Seq::empty() }),
    {
        self.bg = 0;
        self.cmds.clear();
        self.depth = 1;
    }
}

} // verus!
