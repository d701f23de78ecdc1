use crate::game_object::{
    lemma_removal_keeps_order, lemma_slide_keeps_order, lemma_spawn_keeps_order, LaneModel,
    MusicNode, PianoLine,
};
use crate::keyboard::{KeyEventType, KeyboardControl, KeyboardModel};
use rand::seq::SliceRandom;
use vstd::prelude::*;

verus! {

/// The configuration of one run, as far as the rules of the game read it.
/// Lengths and positions are in sub-pixel units, the speed in units per tick;
/// `keybinds` holds one key code per lane.
#[derive(Clone, Debug)]
pub struct GameSettings {
    pub line_height: u32,
    pub margin_bottom: u32,
    pub drop_speed: u32,
    pub touch_block_height: u32,
    pub music_node_height: u32,
    pub line_count: usize,
    pub keybinds: Vec<u32>,
}

/// One notification of the host's event pump.
#[derive(Clone, Copy, PartialEq, Eq, Structural, Debug)]
pub enum InputEvent {
    /// A frame tick, with the ticks of time that have passed.
    Update { dt: u32 },
    /// A raw "key down" signal.
    Press { key: u32 },
    /// A raw "key up" signal.
    Release { key: u32 },
    /// Anything else, such as a request to render.
    Other,
}

/// A running game: the lanes with their notes, and the key tracker.
pub struct Game {
    pub keyboard_control: KeyboardControl,
    pub settings: GameSettings,
    pub piano_lines: Vec<PianoLine>,
}

/// Mathematical content of a [`Game`].
pub struct GameModel {
    pub lanes: Seq<LaneModel>,
    pub keybinds: Seq<u32>,
    pub keyboard: KeyboardModel,
}

/// The lanes of a board as models, in order.
pub open spec fn lanes_of(piano_lines: Seq<PianoLine>) -> Seq<LaneModel> {
    Seq::new(piano_lines.len(), |i: int| piano_lines[i]@)
}

/// Whether every lane can let its notes fall for `dt` ticks.
pub open spec fn can_settle(lanes: Seq<LaneModel>, dt: u32) -> bool {
    forall|i: int| 0 <= i < lanes.len() ==> (#[trigger] lanes[i]).can_slide(dt)
}

/// The lanes after the first part of a frame: in every lane the notes have
/// fallen for `dt` ticks, and a bottommost note that reached the floor is gone.
pub open spec fn settled(lanes: Seq<LaneModel>, dt: u32) -> Seq<LaneModel> {
    Seq::new(lanes.len(), |i: int| lanes[i].slid(dt).cleared())
}

/// The highest note of the board: among the topmost notes of the lanes the
/// one with the least position, and of several such the one in the first lane.
pub open spec fn top_node(lanes: Seq<LaneModel>) -> Option<MusicNode>
    decreases lanes.len(),
{
    if lanes.len() == 0 {
        None
    } else {
        match (top_node(lanes.drop_last()), lanes.last().top()) {
            (Some(found), Some(candidate)) => if candidate.y < found.y {
                Some(candidate)
            } else {
                Some(found)
            },
            (Some(found), None) => Some(found),
            (None, candidate) => candidate,
        }
    }
}

/// Where a new note is due, if one is: at 0 on an empty board, directly above
/// the highest note once that note has reached the top edge, and not at all
/// while it is still above the top edge.
pub open spec fn spawn_position(lanes: Seq<LaneModel>) -> Option<i64> {
    match top_node(lanes) {
        None => Some(0i64),
        Some(top) => if top.y >= 0 {
            Some((top.y - top.height) as i64)
        } else {
            None
        },
    }
}

/// The lane that `key` is bound to: the first index at which `keybinds`
/// holds it.
pub open spec fn bound_line(keybinds: Seq<u32>, key: u32) -> Option<int> {
    if exists|i: int| 0 <= i < keybinds.len() && keybinds[i] == key {
        Some(choose|i: int| is_first_binding(keybinds, key, i))
    } else {
        None
    }
}

/// Whether `i` is the first index at which `keybinds` holds `key`.
pub open spec fn is_first_binding(keybinds: Seq<u32>, key: u32, i: int) -> bool {
    &&& 0 <= i < keybinds.len()
    &&& keybinds[i] == key
    &&& forall|j: int| 0 <= j < i ==> keybinds[j] != key
}

impl GameModel {
    /// The same game with other lanes.
    pub open spec fn with_lanes(self, lanes: Seq<LaneModel>) -> GameModel {
        GameModel { lanes, ..self }
    }

    /// The same game with another key tracker.
    pub open spec fn with_keyboard(self, keyboard: KeyboardModel) -> GameModel {
        GameModel { keyboard, ..self }
    }

    /// Whether a frame of `dt` ticks can be simulated: there is a lane to
    /// spawn in, and no position leaves the machine's range.
    pub open spec fn can_step(self, dt: u32) -> bool {
        self.lanes.len() > 0 && can_settle(self.lanes, dt)
    }

    /// The game after a frame of `dt` ticks in which `line` is the lane that
    /// chance picked: the lanes settle, and where a note is due it appears
    /// on top of that lane.
    pub open spec fn stepped(self, dt: u32, line: int) -> GameModel {
        let lanes = settled(self.lanes, dt);
        match spawn_position(lanes) {
            Some(y) => self.with_lanes(lanes.update(line, lanes[line].with_new(y))),
            None => self.with_lanes(lanes),
        }
    }

    /// The game after a hit attempt in lane `line`; a lane that does not
    /// exist changes nothing.
    pub open spec fn touched(self, line: int) -> GameModel {
        if 0 <= line < self.lanes.len() {
            self.with_lanes(self.lanes.update(line, self.lanes[line].pressed()))
        } else {
            self
        }
    }

    /// The game after a "pressed" edge for `key`: a hit attempt in the lane
    /// bound to it, and nothing for a key that is not bound.
    pub open spec fn key_pressed(self, key: u32) -> GameModel {
        match bound_line(self.keybinds, key) {
            Some(line) => self.touched(line),
            None => self,
        }
    }

    /// The game after one edge: only "pressed" edges act.
    pub open spec fn after_edge(self, edge: (u32, KeyEventType)) -> GameModel {
        match edge.1 {
            KeyEventType::KeyPressed => self.key_pressed(edge.0),
            KeyEventType::KeyReleased => self,
        }
    }

    /// The game after the given edges were acted on, oldest first.
    pub open spec fn dispatched(self, edges: Seq<(u32, KeyEventType)>) -> GameModel
        decreases edges.len(),
    {
        if edges.len() == 0 {
            self
        } else {
            self.dispatched(edges.drop_last()).after_edge(edges.last())
        }
    }

    /// The game after its pending edges were taken from the tracker and acted
    /// on in the order in which they arose.
    pub open spec fn flushed(self) -> GameModel {
        self.with_keyboard(self.keyboard.drained()).dispatched(self.keyboard.events)
    }

    /// The game after a raw key signal reached the tracker; other
    /// notifications leave it as it is.
    pub open spec fn received(self, event: InputEvent) -> GameModel {
        match event {
            InputEvent::Press { key } => self.with_keyboard(self.keyboard.press(key)),
            InputEvent::Release { key } => self.with_keyboard(self.keyboard.release(key)),
            _ => self,
        }
    }

    /// Whether every lane holds its notes in order from the top down.
    pub open spec fn ordered(self) -> bool {
        forall|i: int| 0 <= i < self.lanes.len() ==> (#[trigger] self.lanes[i]).ordered()
    }
}

impl View for Game {
    type V = GameModel;

    open spec fn view(&self) -> GameModel {
        GameModel {
            lanes: lanes_of(self.piano_lines@),
            keybinds: self.settings.keybinds@,
            keyboard: self.keyboard_control@,
        }
    }
}

/// Picks one element of `indices` at random with `SliceRandom::choose` of
/// the rand crate, on the thread's generator. The crate returns `None` for
/// an empty slice and otherwise an element of the slice; which one is left
/// open here.
#[verifier::external_body]
fn choose_index(indices: &Vec<usize>) -> (chosen: Option<usize>)
    ensures
        chosen.is_some() == (indices@.len() > 0),
        match chosen {
            Some(index) => indices@.contains(index),
            None => true,
        },
{
    indices.choose(&mut rand::thread_rng()).copied()
}

/// The indices `0, 1, .., count - 1`.
fn line_indices(count: usize) -> (indices: Vec<usize>)
    ensures
        indices@.len() == count,
        forall|i: int| 0 <= i < count ==> indices@[i] == i,
{
    let mut indices: Vec<usize> = Vec::new();
    let mut i: usize = 0;
    while i < count
        invariant
            i <= count,
            indices@.len() == i,
            forall|k: int| 0 <= k < i ==> indices@[k] == k,
        decreases count - i,
    {
        indices.push(i);
        i += 1;
    }
    indices
}

impl GameSettings {
    /// Starts a game: one empty lane per key binding, and a key tracker that
    /// has seen nothing.
    pub fn build(self) -> (game: Game)
        requires
            self.line_count == self.keybinds@.len(),
        ensures
            game.settings == self,
            game@.keybinds == self.keybinds@,
            game@.keyboard == KeyboardModel::empty(),
            game@.lanes == Seq::new(
                self.line_count as nat,
                |i: int|
                    LaneModel::fresh(
                        self.line_height,
                        self.margin_bottom,
                        self.drop_speed,
                        self.touch_block_height,
                        self.music_node_height,
                    ),
            ),
    {
        let mut piano_lines: Vec<PianoLine> = Vec::new();
        let mut i: usize = 0;
        while i < self.line_count
            invariant
                i <= self.line_count,
                piano_lines@.len() == i,
                forall|k: int|
                    0 <= k < i ==> (#[trigger] piano_lines@[k])@ == LaneModel::fresh(
                        self.line_height,
                        self.margin_bottom,
                        self.drop_speed,
                        self.touch_block_height,
                        self.music_node_height,
                    ),
            decreases self.line_count - i,
        {
            piano_lines.push(PianoLine::new(&self));
            i += 1;
        }
        let game = Game { keyboard_control: KeyboardControl::new(), settings: self, piano_lines };
        assert(game@.lanes =~= Seq::new(
            self.line_count as nat,
            |i: int|
                LaneModel::fresh(
                    self.line_height,
                    self.margin_bottom,
                    self.drop_speed,
                    self.touch_block_height,
                    self.music_node_height,
                ),
        ));
        game
    }
}

impl Game {
    /// Tells whether `update` may be called with `dt`.
    pub fn can_update(&self, dt: u32) -> (fits: bool)
        ensures
            fits == self@.can_step(dt),
    {
        let count: usize = self.piano_lines.len();
        if count == 0 {
            return false;
        }
        let mut i: usize = 0;
        while i < count
            invariant
                i <= count,
                count == self.piano_lines@.len(),
                forall|k: int| 0 <= k < i ==> (#[trigger] self@.lanes[k]).can_slide(dt),
            decreases count - i,
        {
            if !self.piano_lines[i].can_slide_down(dt) {
                assert(!self@.lanes[i as int].can_slide(dt));
                return false;
            }
            i += 1;
        }
        true
    }

    /// The first part of a frame: every lane lets its notes fall and drops a
    /// bottommost note that has reached the floor.
    fn settle(&mut self, dt: u32)
        requires
            can_settle(old(self)@.lanes, dt),
        ensures
            final(self)@ == old(self)@.with_lanes(settled(old(self)@.lanes, dt)),
            final(self).settings == old(self).settings,
    {
        let count: usize = self.piano_lines.len();
        let mut i: usize = 0;
        while i < count
            invariant
                i <= count,
                count == self.piano_lines@.len(),
                count == old(self).piano_lines@.len(),
                self.settings == old(self).settings,
                self.keyboard_control == old(self).keyboard_control,
                can_settle(old(self)@.lanes, dt),
                forall|k: int|
                    0 <= k < i ==> (#[trigger] self.piano_lines@[k])@ == old(
                        self,
                    ).piano_lines@[k]@.slid(dt).cleared(),
                forall|k: int|
                    i <= k < count ==> (#[trigger] self.piano_lines@[k]) == old(
                        self,
                    ).piano_lines@[k],
            decreases count - i,
        {
            assert(old(self)@.lanes[i as int].can_slide(dt));
            self.piano_lines[i].slide_down(dt);
            self.piano_lines[i].clear_missed_node();
            i += 1;
        }
        assert(self@.lanes =~= settled(old(self)@.lanes, dt));
    }

    /// The highest note of the board, if the board holds any note.
    pub fn get_top_node(&self) -> (node: Option<MusicNode>)
        ensures
            node == top_node(self@.lanes),
    {
        let count: usize = self.piano_lines.len();
        let mut found: Option<MusicNode> = None;
        let mut i: usize = 0;
        while i < count
            invariant
                i <= count,
                count == self.piano_lines@.len(),
                found == top_node(self@.lanes.take(i as int)),
            decreases count - i,
        {
            assert(self@.lanes.take(i + 1).drop_last() =~= self@.lanes.take(i as int));
            assert(self@.lanes.take(i + 1).last() == self.piano_lines@[i as int]@);
            if let Some(candidate) = self.piano_lines[i].get_top_node() {
                found = match found {
                    Some(best) => if candidate.y < best.y {
                        Some(*candidate)
                    } else {
                        Some(best)
                    },
                    None => Some(*candidate),
                };
            }
            i += 1;
        }
        assert(self@.lanes.take(count as int) =~= self@.lanes);
        found
    }

    /// Where a new note is due in this frame, if one is.
    pub fn spawn_position(&self) -> (position: Option<i64>)
        ensures
            position == spawn_position(self@.lanes),
            match top_node(self@.lanes) {
                None => position == Some(0i64),
                Some(top) => if top.y >= 0 {
                    position matches Some(y) && y == top.y - top.height
                } else {
                    position.is_none()
                },
            },
    {
        match self.get_top_node() {
            None => Some(0),
            Some(top_music_node) => if top_music_node.y >= 0 {
                Some(top_music_node.y - top_music_node.height as i64)
            } else {
                None
            },
        }
    }

    /// Puts a new note at `y` on top of lane `line`.
    fn spawn(&mut self, line: usize, y: i64)
        requires
            line < old(self).piano_lines@.len(),
        ensures
            final(self)@ == old(self)@.with_lanes(
                old(self)@.lanes.update(line as int, old(self)@.lanes[line as int].with_new(y)),
            ),
            final(self).settings == old(self).settings,
    {
        self.piano_lines[line].push_new_node(y);
        assert(self@.lanes =~= old(self)@.lanes.update(
            line as int,
            old(self)@.lanes[line as int].with_new(y),
        ));
    }

    /// Simulates a frame of `dt` ticks with `line` as the lane in which a due
    /// note appears.
    pub fn update_with_line(&mut self, dt: u32, line: usize)
        requires
            old(self)@.can_step(dt),
            line < old(self)@.lanes.len(),
        ensures
            final(self)@ == old(self)@.stepped(dt, line as int),
            final(self).settings == old(self).settings,
    {
        self.settle(dt);
        if let Some(new_music_node_y) = self.spawn_position() {
            self.spawn(line, new_music_node_y);
        }
    }

    /// Simulates a frame of `dt` ticks: the lanes settle, and a due note
    /// appears in a lane picked at random.
    pub fn update(&mut self, dt: u32)
        requires
            old(self)@.can_step(dt),
        ensures
            exists|line: int|
                0 <= line < old(self)@.lanes.len() && final(self)@ == #[trigger] old(
                    self,
                )@.stepped(dt, line),
            final(self).settings == old(self).settings,
    {
        self.settle(dt);
        if let Some(new_music_node_y) = self.spawn_position() {
            let indices = line_indices(self.piano_lines.len());
            match choose_index(&indices) {
                Some(line) => {
                    assert(line < self.piano_lines@.len());
                    self.spawn(line, new_music_node_y);
                    assert(self@ == old(self)@.stepped(dt, line as int));
                },
                None => {},
            }
        } else {
            assert(self@ == old(self)@.stepped(dt, 0));
        }
    }

    /// The lane that `key` is bound to, if any.
    pub fn bound_line(&self, key: u32) -> (line: Option<usize>)
        ensures
            match line {
                Some(found) => bound_line(self@.keybinds, key) == Some(found as int),
                None => bound_line(self@.keybinds, key).is_none(),
            },
    {
        let count: usize = self.settings.keybinds.len();
        let mut i: usize = 0;
        while i < count
            invariant
                i <= count,
                count == self.settings.keybinds@.len(),
                forall|j: int| 0 <= j < i ==> self.settings.keybinds@[j] != key,
            decreases count - i,
        {
            if self.settings.keybinds[i] == key {
                assert(is_first_binding(self@.keybinds, key, i as int));
                return Some(i);
            }
            i += 1;
        }
        None
    }

    /// Acts on a "pressed" edge for `key`.
    fn key_press(&mut self, key: u32)
        ensures
            final(self)@ == old(self)@.key_pressed(key),
            final(self).settings == old(self).settings,
    {
        if let Some(line) = self.bound_line(key) {
            self.as_press_touch_block(line);
        }
    }

    /// Acts on a "released" edge: there is nothing to do.
    fn key_release(&mut self, _key: u32)
        ensures
            *final(self) == *old(self),
    {
    }

    /// A hit attempt in lane `line`: its bottommost note leaves if it
    /// overlaps the touch zone by any positive length.
    pub fn as_press_touch_block(&mut self, line: usize)
        ensures
            final(self)@ == old(self)@.touched(line as int),
            final(self).settings == old(self).settings,
    {
        if line < self.piano_lines.len() {
            self.piano_lines[line].attempt_hit();
            assert(self@.lanes =~= old(self)@.lanes.update(
                line as int,
                old(self)@.lanes[line as int].pressed(),
            ));
        }
    }

    /// Takes the pending edges from the tracker and acts on each in turn.
    fn flush(&mut self)
        ensures
            final(self)@ == old(self)@.flushed(),
            final(self).settings == old(self).settings,
    {
        let edges = self.keyboard_control.poll_event();
        let ghost start = self@;
        let count: usize = edges.len();
        let mut i: usize = 0;
        while i < count
            invariant
                i <= count,
                count == edges@.len(),
                self.settings == old(self).settings,
                self@ == start.dispatched(edges@.take(i as int)),
            decreases count - i,
        {
            assert(edges@.take(i + 1).drop_last() =~= edges@.take(i as int));
            let (key, event_type) = edges[i];
            match event_type {
                KeyEventType::KeyPressed => {
                    self.key_press(key);
                },
                KeyEventType::KeyReleased => {
                    self.key_release(key);
                },
            }
            i += 1;
        }
        assert(edges@.take(count as int) =~= edges@);
    }

    /// Handles one notification of the event pump: a frame tick runs the
    /// simulation, a key signal goes to the tracker, and then every pending
    /// edge is acted on.
    pub fn event(&mut self, e: &InputEvent)
        requires
            *e matches InputEvent::Update { dt } ==> old(self)@.can_step(dt),
        ensures
            final(self).settings == old(self).settings,
            match *e {
                InputEvent::Update { dt } => exists|line: int|
                    0 <= line < old(self)@.lanes.len() && final(self)@ == (#[trigger] old(
                        self,
                    )@.stepped(dt, line)).flushed(),
                _ => final(self)@ == old(self)@.received(*e).flushed(),
            },
    {
        match *e {
            InputEvent::Update { dt } => {
                self.update(dt);
            },
            InputEvent::Press { key } => {
                self.keyboard_control.key_press_event(key);
            },
            InputEvent::Release { key } => {
                self.keyboard_control.key_release_event(key);
            },
            InputEvent::Other => {},
        }
        self.flush();
    }
}

/// The highest note of the board is the topmost note of some lane, and no
/// lane has a topmost note above it; there is none exactly when every lane
/// is empty.
pub proof fn lemma_top_node_is_highest(lanes: Seq<LaneModel>)
    ensures
        match top_node(lanes) {
            None => forall|i: int| 0 <= i < lanes.len() ==> (#[trigger] lanes[i]).nodes.len() == 0,
            Some(top) => {
                &&& exists|i: int| 0 <= i < lanes.len() && (#[trigger] lanes[i]).top() == Some(top)
                &&& forall|j: int|
                    0 <= j < lanes.len() && (#[trigger] lanes[j]).nodes.len() > 0 ==> top.y
                        <= lanes[j].nodes[0].y
            },
        },
    decreases lanes.len(),
{
    if lanes.len() > 0 {
        let front = lanes.drop_last();
        let last = lanes.len() - 1;
        lemma_top_node_is_highest(front);
        assert forall|i: int| 0 <= i < front.len() implies #[trigger] front[i] == lanes[i] by {}
        match top_node(lanes) {
            Some(top) => {
                if top_node(front) == Some(top) {
                    let i = choose|i: int| 0 <= i < front.len() && (#[trigger] front[i]).top() == Some(top);
                    assert(lanes[i].top() == Some(top));
                } else {
                    assert(lanes[last].top() == Some(top));
                }
                assert forall|j: int|
                    0 <= j < lanes.len() && (#[trigger] lanes[j]).nodes.len() > 0 implies top.y
                    <= lanes[j].nodes[0].y by {
                    if j < last {
                        assert(front[j].nodes.len() > 0);
                    }
                }
            },
            None => {
                assert forall|i: int| 0 <= i < lanes.len() implies (#[trigger] lanes[i]).nodes.len()
                    == 0 by {
                    if i < last {
                        assert(front[i].nodes.len() == 0);
                    }
                }
            },
        }
    }
}

/// On an empty board a frame spawns exactly one note, at position 0, in the
/// lane that was picked; every other lane stays empty. This holds for every
/// length of the frame.
pub proof fn lemma_first_step_spawns_one(game: GameModel, dt: u32, line: int)
    requires
        0 <= line < game.lanes.len(),
        forall|i: int| 0 <= i < game.lanes.len() ==> (#[trigger] game.lanes[i]).nodes.len() == 0,
    ensures
        game.can_step(dt),
        game.stepped(dt, line).lanes.len() == game.lanes.len(),
        game.stepped(dt, line).lanes[line].nodes == seq![
            MusicNode { y: 0, height: game.lanes[line].music_node_height },
        ],
        forall|i: int|
            0 <= i < game.lanes.len() && i != line ==> (#[trigger] game.stepped(
                dt,
                line,
            ).lanes[i]).nodes.len() == 0,
{
    let lanes = settled(game.lanes, dt);
    assert forall|i: int| 0 <= i < lanes.len() implies (#[trigger] lanes[i]).nodes.len() == 0 by {
        assert(game.lanes[i].nodes.len() == 0);
    }
    lemma_top_node_is_highest(lanes);
    assert(top_node(lanes).is_none());
    assert(game.stepped(dt, line).lanes[line].nodes =~= seq![
        MusicNode { y: 0, height: game.lanes[line].music_node_height },
    ]);
}

/// A frame adds at most one note to the whole board: the picked lane grows
/// by at most one note, and no other lane grows.
pub proof fn lemma_step_spawns_at_most_one(game: GameModel, dt: u32, line: int)
    requires
        0 <= line < game.lanes.len(),
    ensures
        game.stepped(dt, line).lanes.len() == game.lanes.len(),
        game.stepped(dt, line).lanes[line].nodes.len() <= game.lanes[line].nodes.len() + 1,
        forall|i: int|
            0 <= i < game.lanes.len() && i != line ==> (#[trigger] game.stepped(
                dt,
                line,
            ).lanes[i]).nodes.len() <= game.lanes[i].nodes.len(),
{
    let lanes = settled(game.lanes, dt);
    assert forall|i: int| 0 <= i < lanes.len() implies (#[trigger] lanes[i]).nodes.len()
        <= game.lanes[i].nodes.len() by {}
}

/// A frame keeps every lane in order from the top down: a new note is placed
/// no lower than any topmost note of the board.
pub proof fn lemma_step_keeps_order(game: GameModel, dt: u32, line: int)
    requires
        game.ordered(),
        game.can_step(dt),
        0 <= line < game.lanes.len(),
    ensures
        game.stepped(dt, line).ordered(),
{
    let lanes = settled(game.lanes, dt);
    assert forall|i: int| 0 <= i < lanes.len() implies (#[trigger] lanes[i]).ordered() by {
        assert(game.lanes[i].ordered());
        assert(game.lanes[i].can_slide(dt));
        lemma_slide_keeps_order(game.lanes[i], dt);
        lemma_removal_keeps_order(game.lanes[i].slid(dt));
    }
    lemma_top_node_is_highest(lanes);
    match spawn_position(lanes) {
        Some(y) => {
            assert(lanes[line].ordered());
            lemma_spawn_keeps_order(lanes[line], y);
        },
        None => {},
    }
}

/// A hit attempt changes at most the lane it is made in, and there at most
/// the bottommost note; in an empty lane it changes nothing.
pub proof fn lemma_touch_is_local(game: GameModel, line: int)
    ensures
        game.touched(line).lanes.len() == game.lanes.len(),
        game.touched(line).keybinds == game.keybinds,
        game.touched(line).keyboard == game.keyboard,
        forall|i: int|
            0 <= i < game.lanes.len() && i != line ==> #[trigger] game.touched(line).lanes[i]
                == game.lanes[i],
        0 <= line < game.lanes.len() ==> game.touched(line).lanes[line] == game.lanes[line].pressed(),
        0 <= line < game.lanes.len() && game.lanes[line].nodes.len() == 0 ==> game.touched(line)
            == game,
{
    if 0 <= line < game.lanes.len() && game.lanes[line].nodes.len() == 0 {
        assert(game.touched(line).lanes =~= game.lanes);
    }
}

/// The lane bound to a key is the first one whose binding is that key, and
/// there is none exactly when no binding is that key.
pub proof fn lemma_bound_line_is_first(keybinds: Seq<u32>, key: u32)
    ensures
        match bound_line(keybinds, key) {
            Some(line) => is_first_binding(keybinds, key, line),
            None => forall|i: int| 0 <= i < keybinds.len() ==> keybinds[i] != key,
        },
    decreases keybinds.len(),
{
    if exists|i: int| 0 <= i < keybinds.len() && keybinds[i] == key {
        let front = keybinds.drop_last();
        let last = keybinds.len() - 1;
        if exists|i: int| 0 <= i < front.len() && front[i] == key {
            lemma_bound_line_is_first(front, key);
            let line = bound_line(front, key).unwrap();
            assert(is_first_binding(front, key, line));
            assert forall|j: int| 0 <= j < line implies keybinds[j] != key by {
                assert(front[j] != key);
            }
            assert(keybinds[line] == front[line]);
            assert(is_first_binding(keybinds, key, line));
        } else {
            assert forall|j: int| 0 <= j < last implies keybinds[j] != key by {
                assert(front[j] == keybinds[j]);
            }
            assert(is_first_binding(keybinds, key, last));
        }
    }
}

/// A "pressed" edge for a key that no lane is bound to changes nothing.
pub proof fn lemma_unbound_key_ignored(game: GameModel, key: u32)
    requires
        forall|i: int| 0 <= i < game.keybinds.len() ==> game.keybinds[i] != key,
    ensures
        game.key_pressed(key) == game,
{
}

/// A hit attempt keeps every lane in order from the top down.
pub proof fn lemma_touch_keeps_order(game: GameModel, line: int)
    requires
        game.ordered(),
    ensures
        game.touched(line).ordered(),
{
    if 0 <= line < game.lanes.len() {
        lemma_removal_keeps_order(game.lanes[line]);
        assert forall|i: int| 0 <= i < game.lanes.len() implies (#[trigger] game.touched(
            line,
        ).lanes[i]).ordered() by {
            assert(game.lanes[i].ordered());
        }
    }
}

/// Acting on any run of edges keeps every lane in order from the top down.
pub proof fn lemma_dispatch_keeps_order(game: GameModel, edges: Seq<(u32, KeyEventType)>)
    requires
        game.ordered(),
    ensures
        game.dispatched(edges).ordered(),
    decreases edges.len(),
{
    if edges.len() > 0 {
        let before = game.dispatched(edges.drop_last());
        lemma_dispatch_keeps_order(game, edges.drop_last());
        match bound_line(before.keybinds, edges.last().0) {
            Some(line) => lemma_touch_keeps_order(before, line),
            None => {},
        }
    }
}

/// Whatever notification the game handles, and whichever lane chance picks
/// in a frame, every lane stays in order from the top down.
pub proof fn lemma_event_keeps_order(game: GameModel, event: InputEvent, line: int)
    requires
        game.ordered(),
        event matches InputEvent::Update { dt } ==> game.can_step(dt) && 0 <= line
            < game.lanes.len(),
    ensures
        match event {
            InputEvent::Update { dt } => game.stepped(dt, line).flushed().ordered(),
            _ => game.received(event).flushed().ordered(),
        },
{
    match event {
        InputEvent::Update { dt } => {
            let after = game.stepped(dt, line);
            lemma_step_keeps_order(game, dt, line);
            lemma_dispatch_keeps_order(
                after.with_keyboard(after.keyboard.drained()),
                after.keyboard.events,
            );
        },
        _ => {
            let after = game.received(event);
            lemma_dispatch_keeps_order(
                after.with_keyboard(after.keyboard.drained()),
                after.keyboard.events,
            );
        },
    }
}

} // verus!
