use crate::game::GameSettings;
use crate::math::{intersect_length, lemma_intersect_bounded, line_intersect_length};
use std::collections::VecDeque;
use vstd::prelude::*;

verus! {

/// A falling note: the position of its top edge and its height.
#[derive(Clone, Copy, PartialEq, Eq, Structural, Debug)]
pub struct MusicNode {
    pub y: i64,
    pub height: u32,
}

/// The fixed zone near the bottom of a lane in which a note can be hit.
#[derive(Clone, Copy, PartialEq, Eq, Structural, Debug)]
pub struct TouchBlock {
    pub y: i64,
    pub height: u32,
}

/// Mathematical content of a [`PianoLine`]: its configuration and its notes
/// from the topmost (index 0, spawned last) to the bottommost.
pub struct LaneModel {
    pub line_height: u32,
    pub drop_speed: u32,
    pub music_node_height: u32,
    pub touch_block: TouchBlock,
    pub nodes: Seq<MusicNode>,
}

impl LaneModel {
    /// The empty lane that the settings describe: the touch zone lies its own
    /// height plus the bottom margin above the floor.
    pub open spec fn fresh(
        line_height: u32,
        margin_bottom: u32,
        drop_speed: u32,
        touch_block_height: u32,
        music_node_height: u32,
    ) -> LaneModel {
        LaneModel {
            line_height,
            drop_speed,
            music_node_height,
            touch_block: TouchBlock {
                y: (line_height - touch_block_height - margin_bottom) as i64,
                height: touch_block_height,
            },
            nodes: Seq::empty(),
        }
    }

    /// The lane with the given notes and unchanged configuration.
    pub open spec fn with_nodes(self, nodes: Seq<MusicNode>) -> LaneModel {
        LaneModel { nodes, ..self }
    }

    /// The topmost note, if any.
    pub open spec fn top(self) -> Option<MusicNode> {
        if self.nodes.len() > 0 {
            Some(self.nodes[0])
        } else {
            None
        }
    }

    /// The bottommost note, if any.
    pub open spec fn bottom(self) -> Option<MusicNode> {
        if self.nodes.len() > 0 {
            Some(self.nodes[self.nodes.len() - 1])
        } else {
            None
        }
    }

    /// The distance that every note falls in `dt` ticks.
    pub open spec fn descent(self, dt: u32) -> int {
        self.drop_speed * dt
    }

    /// Whether every note can fall for `dt` ticks and keep a position that
    /// the machine can hold.
    pub open spec fn can_slide(self, dt: u32) -> bool {
        forall|i: int|
            0 <= i < self.nodes.len() ==> (#[trigger] self.nodes[i]).y + self.descent(dt)
                <= i64::MAX
    }

    /// The lane after `dt` ticks: every note is lower by the same distance.
    pub open spec fn slid(self, dt: u32) -> LaneModel {
        self.with_nodes(
            Seq::new(
                self.nodes.len(),
                |i: int|
                    MusicNode {
                        y: (self.nodes[i].y + self.descent(dt)) as i64,
                        height: self.nodes[i].height,
                    },
            ),
        )
    }

    /// The lane without its bottommost note; an empty lane stays empty.
    pub open spec fn without_bottom(self) -> LaneModel {
        if self.nodes.len() > 0 {
            self.with_nodes(self.nodes.drop_last())
        } else {
            self
        }
    }

    /// The lane with a new note of the configured height on top, at `y`.
    pub open spec fn with_new(self, y: i64) -> LaneModel {
        self.with_nodes(seq![MusicNode { y, height: self.music_node_height }] + self.nodes)
    }

    /// Whether the bottom edge of the bottommost note has reached the floor.
    pub open spec fn bottom_missed(self) -> bool {
        self.nodes.len() > 0 && self.nodes.last().y + self.nodes.last().height >= self.line_height
    }

    /// The lane after a missed bottommost note was taken out.
    pub open spec fn cleared(self) -> LaneModel {
        if self.bottom_missed() {
            self.without_bottom()
        } else {
            self
        }
    }

    /// Whether the bottommost note overlaps the touch zone by a positive
    /// length, however small.
    pub open spec fn bottom_touched(self) -> bool {
        self.nodes.len() > 0 && intersect_length(
            self.nodes.last().y as int,
            self.nodes.last().height as int,
            self.touch_block.y as int,
            self.touch_block.height as int,
        ) > 0
    }

    /// The lane after a hit attempt: the bottommost note leaves exactly when
    /// it touches the zone.
    pub open spec fn pressed(self) -> LaneModel {
        if self.bottom_touched() {
            self.without_bottom()
        } else {
            self
        }
    }

    /// Whether the notes are in order of position from the top down.
    pub open spec fn ordered(self) -> bool {
        forall|i: int, j: int|
            0 <= i <= j < self.nodes.len() ==> (#[trigger] self.nodes[i]).y <= (
            #[trigger] self.nodes[j]).y
    }
}

/// The distance fallen in `dt` ticks at `drop_speed`, which always fits.
fn descent_of(drop_speed: u32, dt: u32) -> (descent: u64)
    ensures
        descent == drop_speed * dt,
{
    assert(drop_speed * dt <= 0xFFFF_FFFF * 0xFFFF_FFFF) by (nonlinear_arith)
        requires
            drop_speed <= 0xFFFF_FFFF,
            dt <= 0xFFFF_FFFF,
    ;
    drop_speed as u64 * dt as u64
}

/// One lane of the board: a queue of falling notes and a touch zone.
#[derive(Clone, Debug)]
pub struct PianoLine {
    pub line_height: u32,
    pub drop_speed: u32,
    pub music_node_height: u32,
    pub music_nodes: VecDeque<MusicNode>,
    pub touch_block: TouchBlock,
}

impl View for PianoLine {
    type V = LaneModel;

    open spec fn view(&self) -> LaneModel {
        LaneModel {
            line_height: self.line_height,
            drop_speed: self.drop_speed,
            music_node_height: self.music_node_height,
            touch_block: self.touch_block,
            nodes: self.music_nodes@,
        }
    }
}

impl PianoLine {
    /// An empty lane with the geometry and speed of the settings.
    pub fn new(game_settings: &GameSettings) -> (line: PianoLine)
        ensures
            line@ == LaneModel::fresh(
                game_settings.line_height,
                game_settings.margin_bottom,
                game_settings.drop_speed,
                game_settings.touch_block_height,
                game_settings.music_node_height,
            ),
            line.touch_block.y == game_settings.line_height - game_settings.touch_block_height
                - game_settings.margin_bottom,
    {
        PianoLine {
            line_height: game_settings.line_height,
            drop_speed: game_settings.drop_speed,
            music_node_height: game_settings.music_node_height,
            music_nodes: VecDeque::new(),
            touch_block: TouchBlock {
                y: game_settings.line_height as i64 - game_settings.touch_block_height as i64
                    - game_settings.margin_bottom as i64,
                height: game_settings.touch_block_height,
            },
        }
    }

    /// Tells whether `slide_down` may be called with `dt`.
    pub fn can_slide_down(&self, dt: u32) -> (fits: bool)
        ensures
            fits == self@.can_slide(dt),
    {
        let descent: u64 = descent_of(self.drop_speed, dt);
        let count: usize = self.music_nodes.len();
        let mut i: usize = 0;
        while i < count
            invariant
                i <= count,
                count == self.music_nodes@.len(),
                descent == self@.descent(dt),
                forall|k: int|
                    0 <= k < i ==> (#[trigger] self.music_nodes@[k]).y + descent <= i64::MAX,
            decreases count - i,
        {
            if self.music_nodes[i].y as i128 + descent as i128 > i64::MAX as i128 {
                assert(self@.nodes[i as int].y + self@.descent(dt) > i64::MAX);
                return false;
            }
            i += 1;
        }
        true
    }

    /// Lets every note fall for `dt` ticks, by `drop_speed * dt`.
    pub fn slide_down(&mut self, dt: u32)
        requires
            old(self)@.can_slide(dt),
        ensures
            final(self)@ == old(self)@.slid(dt),
            final(self)@.nodes.len() == old(self)@.nodes.len(),
            forall|i: int|
                0 <= i < old(self)@.nodes.len() ==> (#[trigger] final(self)@.nodes[i]).y == old(
                    self,
                )@.nodes[i].y + old(self).drop_speed * dt,
    {
        let descent: u64 = descent_of(self.drop_speed, dt);
        let count: usize = self.music_nodes.len();
        let ghost before = self.music_nodes@;
        let ghost lane = self@;
        let mut i: usize = 0;
        while i < count
            invariant
                i <= count,
                count == before.len(),
                lane == old(self)@,
                before == lane.nodes,
                lane.can_slide(dt),
                descent == lane.descent(dt),
                self.line_height == lane.line_height,
                self.drop_speed == lane.drop_speed,
                self.music_node_height == lane.music_node_height,
                self.touch_block == lane.touch_block,
                self.music_nodes@ == before.subrange(i as int, count as int) + lane.slid(
                    dt,
                ).nodes.subrange(0, i as int),
            decreases count - i,
        {
            let ghost current = self.music_nodes@;
            match self.music_nodes.pop_front() {
                Some(music_node) => {
                    assert(music_node == before[i as int]);
                    let y: i64 = (music_node.y as i128 + descent as i128) as i64;
                    self.music_nodes.push_back(MusicNode { y, height: music_node.height });
                    assert(self.music_nodes@ =~= before.subrange(i + 1, count as int) + lane.slid(
                        dt,
                    ).nodes.subrange(0, i + 1));
                },
                None => {},
            }
            i += 1;
        }
        assert(self.music_nodes@ =~= lane.slid(dt).nodes);
        proof {
            lemma_slide_is_exact(lane, dt);
        }
    }

    /// Takes out the bottommost note, if there is one.
    pub fn pop_bottom_node(&mut self)
        ensures
            final(self)@ == old(self)@.without_bottom(),
    {
        self.music_nodes.pop_back();
    }

    /// The bottommost note: the one nearest the touch zone.
    pub fn get_bottom_node(&self) -> (node: Option<&MusicNode>)
        ensures
            match node {
                Some(found) => self@.bottom() == Some(*found),
                None => self@.bottom().is_none(),
            },
    {
        let count: usize = self.music_nodes.len();
        if count > 0 {
            Some(&self.music_nodes[count - 1])
        } else {
            None
        }
    }

    /// The topmost note: the one spawned last.
    pub fn get_top_node(&self) -> (node: Option<&MusicNode>)
        ensures
            match node {
                Some(found) => self@.top() == Some(*found),
                None => self@.top().is_none(),
            },
    {
        if self.music_nodes.len() > 0 {
            Some(&self.music_nodes[0])
        } else {
            None
        }
    }

    /// Puts a new note of the lane's note height on top, at `y`.
    pub fn push_new_node(&mut self, y: i64)
        ensures
            final(self)@ == old(self)@.with_new(y),
    {
        self.music_nodes.push_front(MusicNode { y, height: self.music_node_height })
    }

    /// Takes out the bottommost note if its bottom edge has reached the
    /// floor, and tells whether it did.
    pub fn clear_missed_node(&mut self) -> (missed: bool)
        ensures
            missed == old(self)@.bottom_missed(),
            final(self)@ == old(self)@.cleared(),
    {
        let missed: bool = match self.get_bottom_node() {
            Some(bottom_music_node) => bottom_music_node.y as i128
                + bottom_music_node.height as i128 >= self.line_height as i128,
            None => false,
        };
        if missed {
            self.pop_bottom_node();
        }
        missed
    }

    /// Takes out the bottommost note if it overlaps the touch zone by any
    /// positive length, and tells whether it did.
    pub fn attempt_hit(&mut self) -> (hit: bool)
        ensures
            hit == old(self)@.bottom_touched(),
            final(self)@ == old(self)@.pressed(),
    {
        let hit: bool = match self.get_bottom_node() {
            Some(node) => line_intersect_length(
                node.y,
                node.height as i64,
                self.touch_block.y,
                self.touch_block.height as i64,
            ) > 0,
            None => false,
        };
        if hit {
            self.pop_bottom_node();
        }
        hit
    }
}

/// A note spawned at `y` is the topmost note right away, at exactly `y` and
/// with the lane's note height; the notes below it are as they were.
pub proof fn lemma_spawn_is_top(lane: LaneModel, y: i64)
    ensures
        lane.with_new(y).top() == Some(MusicNode { y, height: lane.music_node_height }),
        lane.with_new(y).nodes.len() == lane.nodes.len() + 1,
        lane.with_new(y).nodes.drop_first() == lane.nodes,
{
    assert(lane.with_new(y).nodes.drop_first() =~= lane.nodes);
}

/// A bottommost note whose bottom edge has reached the floor leaves at the
/// next floor check, alone, whether or not it touches the zone; a note that
/// has not reached the floor stays.
pub proof fn lemma_missed_note_leaves(lane: LaneModel)
    requires
        lane.nodes.len() > 0,
    ensures
        lane.nodes.last().y + lane.nodes.last().height >= lane.line_height ==> lane.cleared().nodes
            == lane.nodes.drop_last(),
        lane.nodes.last().y + lane.nodes.last().height < lane.line_height ==> lane.cleared()
            == lane,
{
}

/// A hit attempt on a bottommost note that overlaps the touch zone removes
/// that note and no other; without an overlap nothing changes.
pub proof fn lemma_hit_removes_bottom(lane: LaneModel)
    requires
        lane.nodes.len() > 0,
    ensures
        intersect_length(
            lane.nodes.last().y as int,
            lane.nodes.last().height as int,
            lane.touch_block.y as int,
            lane.touch_block.height as int,
        ) > 0 ==> lane.pressed().nodes == lane.nodes.drop_last(),
        intersect_length(
            lane.nodes.last().y as int,
            lane.nodes.last().height as int,
            lane.touch_block.y as int,
            lane.touch_block.height as int,
        ) <= 0 ==> lane.pressed() == lane,
{
}

/// A note that can be hit has a height, and so has the zone it touches: the
/// overlap is positive and no longer than the shorter of the two, so that its
/// share of that height lies above zero and reaches at most one.
pub proof fn lemma_hit_overlap_within_heights(lane: LaneModel)
    requires
        lane.bottom_touched(),
    ensures
        0 < intersect_length(
            lane.nodes.last().y as int,
            lane.nodes.last().height as int,
            lane.touch_block.y as int,
            lane.touch_block.height as int,
        ) <= lane.nodes.last().height,
        intersect_length(
            lane.nodes.last().y as int,
            lane.nodes.last().height as int,
            lane.touch_block.y as int,
            lane.touch_block.height as int,
        ) <= lane.touch_block.height,
{
    lemma_intersect_bounded(
        lane.nodes.last().y as int,
        lane.nodes.last().height as int,
        lane.touch_block.y as int,
        lane.touch_block.height as int,
    );
}

/// Where every note can fall for `dt` ticks, each is afterwards lower by
/// exactly `drop_speed * dt` and as high as before, and none is lost.
pub proof fn lemma_slide_is_exact(lane: LaneModel, dt: u32)
    requires
        lane.can_slide(dt),
    ensures
        lane.slid(dt).nodes.len() == lane.nodes.len(),
        forall|i: int|
            0 <= i < lane.nodes.len() ==> {
                &&& (#[trigger] lane.slid(dt).nodes[i]).y == lane.nodes[i].y + lane.drop_speed * dt
                &&& lane.slid(dt).nodes[i].height == lane.nodes[i].height
            },
{
    assert(lane.drop_speed * dt >= 0) by (nonlinear_arith);
    assert forall|i: int| 0 <= i < lane.nodes.len() implies (#[trigger] lane.slid(dt).nodes[i]).y
        == lane.nodes[i].y + lane.drop_speed * dt by {
        assert(lane.nodes[i].y + lane.descent(dt) <= i64::MAX);
    }
}

/// Falling keeps the notes of a lane in order from the top down.
pub proof fn lemma_slide_keeps_order(lane: LaneModel, dt: u32)
    requires
        lane.ordered(),
        lane.can_slide(dt),
    ensures
        lane.slid(dt).ordered(),
{
    let after = lane.slid(dt);
    lemma_slide_is_exact(lane, dt);
    assert forall|i: int, j: int| 0 <= i <= j < after.nodes.len() implies (
    #[trigger] after.nodes[i]).y <= (#[trigger] after.nodes[j]).y by {
        assert(lane.nodes[i].y <= lane.nodes[j].y);
    }
}

/// Taking out the bottommost note, for whatever reason, keeps the notes of a
/// lane in order.
pub proof fn lemma_removal_keeps_order(lane: LaneModel)
    requires
        lane.ordered(),
    ensures
        lane.without_bottom().ordered(),
        lane.cleared().ordered(),
        lane.pressed().ordered(),
{
    let after = lane.without_bottom();
    assert forall|i: int, j: int| 0 <= i <= j < after.nodes.len() implies (
    #[trigger] after.nodes[i]).y <= (#[trigger] after.nodes[j]).y by {
        assert(lane.nodes[i].y <= lane.nodes[j].y);
    }
}

/// A note spawned no lower than the topmost note keeps the lane in order.
pub proof fn lemma_spawn_keeps_order(lane: LaneModel, y: i64)
    requires
        lane.ordered(),
        lane.nodes.len() > 0 ==> y <= lane.nodes[0].y,
    ensures
        lane.with_new(y).ordered(),
{
    let after = lane.with_new(y);
    assert forall|i: int, j: int| 0 <= i <= j < after.nodes.len() implies (
    #[trigger] after.nodes[i]).y <= (#[trigger] after.nodes[j]).y by {
        if i == 0 {
            if j > 0 {
                assert(lane.nodes[0].y <= lane.nodes[j - 1].y);
            }
        } else {
            assert(lane.nodes[i - 1].y <= lane.nodes[j - 1].y);
        }
    }
}

} // verus!
