//! Playback state: status, repeat modes, the shuffled play order and the simulated player
//! that drives the user interface without audio.
use vstd::prelude::*;

use crate::model::{MediaItem, MediaItemView};

verus! {

#[derive(Clone, Copy, Debug, PartialEq, Eq, Structural)]
pub enum PlaybackStatus {
    Paused,
    Playing,
}

/// Off plays the queue once, All repeats the queue, One repeats the current track.
#[derive(Clone, Copy, Debug, PartialEq, Eq, Structural)]
pub enum RepeatMode {
    Off,
    All,
    One,
}

pub open spec fn next_repeat_mode(mode: RepeatMode) -> RepeatMode {
    match mode {
        RepeatMode::Off => RepeatMode::All,
        RepeatMode::All => RepeatMode::One,
        RepeatMode::One => RepeatMode::Off,
    }
}

pub open spec fn repeat_mode_name(mode: RepeatMode) -> Seq<char> {
    match mode {
        RepeatMode::Off => "off"@,
        RepeatMode::All => "all"@,
        RepeatMode::One => "one"@,
    }
}

impl RepeatMode {
    /// The next mode in the cycle Off, All, One.
    pub fn cycle(self) -> (res: RepeatMode)
        ensures
            res == next_repeat_mode(self),
    {
        match self {
            RepeatMode::Off => RepeatMode::All,
            RepeatMode::All => RepeatMode::One,
            RepeatMode::One => RepeatMode::Off,
        }
    }

    /// The mode's name in the user interface.
    pub fn as_str(self) -> (res: &'static str)
        ensures
            res@ == repeat_mode_name(self),
    {
        proof {
            reveal_strlit("off");
            reveal_strlit("all");
            reveal_strlit("one");
        }
        match self {
            RepeatMode::Off => "off",
            RepeatMode::All => "all",
            RepeatMode::One => "one",
        }
    }
}

impl Default for RepeatMode {
    fn default() -> (res: RepeatMode)
        ensures
            res == RepeatMode::Off,
    {
        RepeatMode::Off
    }
}

/// The complete playback state that windows display.
#[derive(Clone, Debug, PartialEq, Eq)]
pub struct PlaybackSnapshot {
    pub status: PlaybackStatus,
    pub current_item: Option<MediaItem>,
    pub position_ms: u64,
    pub volume_percent: u8,
    pub shuffle_enabled: bool,
    pub repeat_mode: RepeatMode,
    pub queue: Vec<MediaItem>,
    pub playback_order: Vec<String>,
}

/// The part of the playback state that changes while a track plays.
#[derive(Clone, Debug, PartialEq, Eq)]
pub struct PlaybackTransport {
    pub status: PlaybackStatus,
    pub current_item: Option<MediaItem>,
    pub position_ms: u64,
    pub volume_percent: u8,
}

pub open spec fn opt_item_view(item: Option<MediaItem>) -> Option<MediaItemView> {
    match item {
        Some(i) => Some(i@),
        None => None,
    }
}

pub open spec fn items_view(items: Seq<MediaItem>) -> Seq<MediaItemView> {
    items.map_values(|i: MediaItem| i@)
}

pub open spec fn item_ids(items: Seq<MediaItemView>) -> Seq<Seq<char>> {
    items.map_values(|i: MediaItemView| i.id)
}

/// The mathematical value of a playback snapshot.
pub struct PlaybackSnapshotView {
    pub status: PlaybackStatus,
    pub current_item: Option<MediaItemView>,
    pub position_ms: u64,
    pub volume_percent: u8,
    pub shuffle_enabled: bool,
    pub repeat_mode: RepeatMode,
    pub queue: Seq<MediaItemView>,
    pub playback_order: Seq<Seq<char>>,
}

impl View for PlaybackSnapshot {
    type V = PlaybackSnapshotView;

    open spec fn view(&self) -> PlaybackSnapshotView {
        PlaybackSnapshotView {
            status: self.status,
            current_item: opt_item_view(self.current_item),
            position_ms: self.position_ms,
            volume_percent: self.volume_percent,
            shuffle_enabled: self.shuffle_enabled,
            repeat_mode: self.repeat_mode,
            queue: items_view(self.queue@),
            playback_order: self.playback_order.deep_view(),
        }
    }
}

pub fn clone_opt_item(item: &Option<MediaItem>) -> (res: Option<MediaItem>)
    ensures
        opt_item_view(res) == opt_item_view(*item),
{
    match item {
        Some(i) => Some(i.duplicate()),
        None => None,
    }
}

pub fn clone_items(items: &Vec<MediaItem>) -> (res: Vec<MediaItem>)
    ensures
        items_view(res@) == items_view(items@),
{
    let mut res: Vec<MediaItem> = Vec::new();
    let mut i: usize = 0;
    while i < items.len()
        invariant
            i <= items.len(),
            res@.len() == i,
            forall|j: int| 0 <= j < i ==> res@[j]@ == items@[j]@,
        decreases items.len() - i,
    {
        res.push(items[i].duplicate());
        i = i + 1;
    }
    assert(items_view(res@) =~= items_view(items@));
    res
}

pub fn clone_ids(ids: &Vec<String>) -> (res: Vec<String>)
    ensures
        res.deep_view() == ids.deep_view(),
{
    crate::model::clone_strings(ids)
}

impl PlaybackSnapshot {
    /// A copy of the snapshot.
    pub fn duplicate(&self) -> (res: PlaybackSnapshot)
        ensures
            res@ == self@,
    {
        PlaybackSnapshot {
            status: self.status,
            current_item: clone_opt_item(&self.current_item),
            position_ms: self.position_ms,
            volume_percent: self.volume_percent,
            shuffle_enabled: self.shuffle_enabled,
            repeat_mode: self.repeat_mode,
            queue: clone_items(&self.queue),
            playback_order: clone_ids(&self.playback_order),
        }
    }
}

impl PlaybackTransport {
    /// The transport part of a snapshot.
    pub fn from_snapshot(snapshot: &PlaybackSnapshot) -> (res: PlaybackTransport)
        ensures
            res.status == snapshot.status,
            opt_item_view(res.current_item) == opt_item_view(snapshot.current_item),
            res.position_ms == snapshot.position_ms,
            res.volume_percent == snapshot.volume_percent,
    {
        PlaybackTransport {
            status: snapshot.status,
            current_item: clone_opt_item(&snapshot.current_item),
            position_ms: snapshot.position_ms,
            volume_percent: snapshot.volume_percent,
        }
    }
}

/// The first index at which `ids` holds `id`.
pub open spec fn first_index(ids: Seq<Seq<char>>, id: Seq<char>) -> Option<int> {
    if exists|i: int|
        0 <= i < ids.len() && ids[i] == id && forall|j: int| 0 <= j < i ==> ids[j] != id {
        Some(
            choose|i: int|
                0 <= i < ids.len() && ids[i] == id && forall|j: int| 0 <= j < i ==> ids[j] != id,
        )
    } else {
        None
    }
}

/// Finds the first position of a track ID in a list of IDs.
pub fn position_of_id(ids: &Vec<String>, id: &String) -> (res: Option<usize>)
    ensures
        match res {
            Some(i) => first_index(ids.deep_view(), id@) == Some(i as int),
            None => first_index(ids.deep_view(), id@) is None,
        },
        res matches Some(i) ==> i < ids@.len() && ids@[i as int]@ == id@,
{
    let ghost v = ids.deep_view();
    let mut i: usize = 0;
    while i < ids.len()
        invariant
            i <= ids.len(),
            v == ids.deep_view(),
            forall|j: int| 0 <= j < i ==> v[j] != id@,
        decreases ids.len() - i,
    {
        assert(v[i as int] == ids@[i as int]@);
        if ids[i] == *id {
            proof {
                let c = choose|c: int|
                    0 <= c < v.len() && v[c] == id@ && forall|j: int| 0 <= j < c ==> v[j] != id@;
                assert(c == i) by {
                    if c < i {
                    } else if c > i {
                        assert(v[i as int] == id@);
                    }
                }
            }
            return Some(i);
        }
        i = i + 1;
    }
    None
}

/// Finds the first queue position of a track.
pub fn position_of_item(items: &Vec<MediaItem>, id: &String) -> (res: Option<usize>)
    ensures
        match res {
            Some(i) => first_index(item_ids(items_view(items@)), id@) == Some(i as int),
            None => first_index(item_ids(items_view(items@)), id@) is None,
        },
        res matches Some(i) ==> i < items@.len() && items@[i as int].id@ == id@,
{
    let ghost v = item_ids(items_view(items@));
    let mut i: usize = 0;
    while i < items.len()
        invariant
            i <= items.len(),
            v == item_ids(items_view(items@)),
            forall|j: int| 0 <= j < i ==> v[j] != id@,
        decreases items.len() - i,
    {
        assert(v[i as int] == items@[i as int].id@);
        if items[i].id == *id {
            proof {
                let c = choose|c: int|
                    0 <= c < v.len() && v[c] == id@ && forall|j: int| 0 <= j < c ==> v[j] != id@;
                assert(c == i) by {
                    if c < i {
                    } else if c > i {
                        assert(v[i as int] == id@);
                    }
                }
            }
            return Some(i);
        }
        i = i + 1;
    }
    None
}

/// One step of the xorshift generator that drives shuffling.
pub open spec fn xorshift(x: u64) -> u64 {
    let a = x ^ (x << 13u64);
    let b = a ^ (a >> 7u64);
    b ^ (b << 17u64)
}

/// The generator never starts from zero, its fixed point.
pub open spec fn shuffle_seed(seed: u64) -> u64 {
    if seed == 0 {
        0x9e37_79b9_7f4a_7c15
    } else {
        seed
    }
}

pub open spec fn swap_spec<A>(s: Seq<A>, i: int, j: int) -> Seq<A> {
    s.update(i, s[j]).update(j, s[i])
}

/// Fisher–Yates from position `i` down to `start + 1`: each step draws the next generator
/// value and swaps position `i` with a position in `start..=i`.
pub open spec fn shuffle_from<A>(s: Seq<A>, start: int, i: int, state: u64) -> Seq<A>
    decreases i - start,
{
    if start < 0 || i <= start || i >= s.len() {
        s
    } else {
        let next = xorshift(state);
        let j = start + (next as int) % (i - start + 1);
        shuffle_from(swap_spec(s, i, j), start, i - 1, next)
    }
}

/// The order that `shuffle_upcoming` gives to the elements from `start` on.
pub open spec fn shuffled<A>(s: Seq<A>, start: int, seed: u64) -> Seq<A> {
    shuffle_from(s, start, s.len() - 1, shuffle_seed(seed))
}

fn xorshift_exec(x: u64) -> (r: u64)
    ensures
        r == xorshift(x),
{
    let a = x ^ (x << 13u64);
    let b = a ^ (a >> 7u64);
    b ^ (b << 17u64)
}

/// Shuffles the elements from `start` on, deterministically for a seed.
pub fn shuffle_upcoming(ids: &mut Vec<String>, start: usize, seed: u64)
    ensures
        final(ids)@ == shuffled(old(ids)@, start as int, seed),
{
    let ghost original = ids@;
    let len = ids.len();
    if len == 0 {
        return;
    }
    let mut state: u64 = if seed == 0 {
        0x9e37_79b9_7f4a_7c15
    } else {
        seed
    };
    let mut i: usize = len - 1;
    while i > start
        invariant
            len == ids@.len(),
            len == original.len(),
            i < len,
            shuffled(original, start as int, seed) == shuffle_from(ids@, start as int, i as int, state),
        decreases i,
    {
        let next = xorshift_exec(state);
        let span = (i - start + 1) as u64;
        let j = start + (next % span) as usize;
        assert(j == start + (next as int) % (i - start + 1));
        let a = ids[i].clone();
        let b = ids[j].clone();
        let ghost before = ids@;
        ids.set(i, b);
        ids.set(j, a);
        assert(ids@ =~= swap_spec(before, i as int, j as int));
        state = next;
        i = i - 1;
    }
}

/// A playback error of the simulated player.
#[derive(Debug, PartialEq, Eq)]
pub enum PlaybackError {
    QueueIndexOutOfBounds { index: usize },
    InvalidVolume,
}

/// A player without audio: it keeps the state that a real player would show.
pub struct FakePlaybackProvider {
    snapshot: PlaybackSnapshot,
    shuffle_order: Vec<String>,
}

/// The seed of the simulated player's shuffle, which keeps its order reproducible.
pub const FAKE_SHUFFLE_SEED: u64 = 0x9e37_79b9;

/// The track that follows the current one: in the shuffle order when shuffle is on, else in
/// the queue, wrapping at the end. `None` when there is no current track or it cannot be
/// found.
pub open spec fn fake_next_id(s: PlaybackSnapshotView, order: Seq<Seq<char>>) -> Option<Seq<char>> {
    match s.current_item {
        None => None,
        Some(current) => if s.shuffle_enabled {
            match first_index(order, current.id) {
                None => None,
                Some(i) => Some(order[(i + 1) % (order.len() as int)]),
            }
        } else {
            match first_index(item_ids(s.queue), current.id) {
                None => None,
                Some(i) => Some(s.queue[(i + 1) % (s.queue.len() as int)].id),
            }
        },
    }
}

/// With shuffle on, the track before the current one in the shuffle order, wrapping at
/// the start. `None` when there is no current track or the order lacks it.
pub open spec fn fake_previous_id(s: PlaybackSnapshotView, order: Seq<Seq<char>>) -> Option<
    Seq<char>,
> {
    match s.current_item {
        None => None,
        Some(current) => match first_index(order, current.id) {
            None => None,
            Some(i) => Some(
                order[if i == 0 {
                    order.len() - 1
                } else {
                    i - 1
                }],
            ),
        },
    }
}

/// With shuffle off, the queue position before the current track's first entry, wrapping
/// at the start. `None` when there is no current track or the queue lacks it.
pub open spec fn fake_previous_position(s: PlaybackSnapshotView) -> Option<int> {
    match s.current_item {
        None => None,
        Some(current) => match first_index(item_ids(s.queue), current.id) {
            None => None,
            Some(i) => Some(
                if i == 0 {
                    s.queue.len() - 1
                } else {
                    i - 1
                },
            ),
        },
    }
}

/// Selecting a queue position: that entry becomes current at position zero; nothing
/// changes without a position.
pub open spec fn selects_position(before: PlaybackSnapshotView, after: PlaybackSnapshotView, k: Option<int>) -> bool {
    match k {
        None => after == before,
        Some(k) => after == PlaybackSnapshotView {
            current_item: Some(before.queue[k]),
            position_ms: 0,
            ..before
        },
    }
}

/// Selecting a track by ID: the first queue entry with that ID becomes current at position
/// zero; nothing changes when no entry has it.
pub open spec fn selects(before: PlaybackSnapshotView, after: PlaybackSnapshotView, id: Option<Seq<char>>) -> bool {
    match id {
        None => after == before,
        Some(id) => match first_index(item_ids(before.queue), id) {
            None => after == before,
            Some(k) => after == PlaybackSnapshotView {
                current_item: Some(before.queue[k]),
                position_ms: 0,
                ..before
            },
        },
    }
}

/// The ID of the current track.
pub open spec fn current_track_id(current: Option<MediaItemView>) -> Option<Seq<char>> {
    match current {
        Some(c) => Some(c.id),
        None => None,
    }
}

/// The IDs of the queue without the current track.
pub open spec fn upcoming_ids(queue: Seq<MediaItemView>, current: Option<Seq<char>>) -> Seq<Seq<char>> {
    item_ids(queue).filter(|id: Seq<char>| current != Some(id))
}

/// The shuffle order when shuffle is turned on: the current track first, then the other
/// queue tracks shuffled with the fixed seed.
pub open spec fn fake_shuffle_order(s: PlaybackSnapshotView) -> Seq<Seq<char>> {
    let rest = shuffled(upcoming_ids(s.queue, current_track_id(s.current_item)), 0, FAKE_SHUFFLE_SEED);
    match s.current_item {
        Some(c) => seq![c.id] + rest,
        None => rest,
    }
}

impl FakePlaybackProvider {
    pub closed spec fn state(&self) -> PlaybackSnapshotView {
        self.snapshot@
    }

    pub closed spec fn order(&self) -> Seq<Seq<char>> {
        self.shuffle_order.deep_view()
    }

    /// A paused player over the first three tracks, with the first one current.
    pub fn with_queue(items: Vec<MediaItem>) -> (res: FakePlaybackProvider)
        ensures
            res.state().queue == items_view(items@).take(
                if items@.len() < 3 {
                    items@.len() as int
                } else {
                    3
                },
            ),
            res.state().current_item == (if items@.len() > 0 {
                Some(items@[0]@)
            } else {
                None
            }),
            res.state().status == PlaybackStatus::Paused,
            res.state().position_ms == 0,
            res.state().volume_percent == 72,
            !res.state().shuffle_enabled,
            res.state().repeat_mode == RepeatMode::Off,
            res.state().playback_order.len() == 0,
            res.order().len() == 0,
    {
        let mut queue = items;
        queue.truncate(3);
        let current_item = if queue.len() > 0 {
            Some(queue[0].duplicate())
        } else {
            None
        };
        let res = FakePlaybackProvider {
            snapshot: PlaybackSnapshot {
                status: PlaybackStatus::Paused,
                current_item,
                position_ms: 0,
                volume_percent: 72,
                shuffle_enabled: false,
                repeat_mode: RepeatMode::Off,
                queue,
                playback_order: Vec::new(),
            },
            shuffle_order: Vec::new(),
        };
        assert(res.state().queue =~= items_view(items@).take(
            if items@.len() < 3 {
                items@.len() as int
            } else {
                3
            },
        ));
        assert(res.state().playback_order =~= Seq::<Seq<char>>::empty());
        assert(res.order() =~= Seq::<Seq<char>>::empty());
        res
    }

    /// The current state, with the shuffle order as the playback order.
    pub fn snapshot(&self) -> (res: PlaybackSnapshot)
        ensures
            res@ == (PlaybackSnapshotView { playback_order: self.order(), ..self.state() }),
    {
        let mut snapshot = self.snapshot.duplicate();
        snapshot.playback_order = clone_ids(&self.shuffle_order);
        snapshot
    }

    /// Plays when there is a current track.
    pub fn play(&mut self)
        ensures
            final(self).state() == (if old(self).state().current_item is Some {
                PlaybackSnapshotView { status: PlaybackStatus::Playing, ..old(self).state() }
            } else {
                old(self).state()
            }),
            final(self).order() == old(self).order(),
    {
        if self.snapshot.current_item.is_some() {
            self.snapshot.status = PlaybackStatus::Playing;
        }
    }

    pub fn pause(&mut self)
        ensures
            final(self).state() == (PlaybackSnapshotView {
                status: PlaybackStatus::Paused,
                ..old(self).state()
            }),
            final(self).order() == old(self).order(),
    {
        self.snapshot.status = PlaybackStatus::Paused;
    }

    /// Moves within the current track, clamped to its duration.
    pub fn seek(&mut self, position_ms: u64)
        ensures
            final(self).state() == (match old(self).state().current_item {
                Some(item) => PlaybackSnapshotView {
                    position_ms: if position_ms < item.duration_ms {
                        position_ms
                    } else {
                        item.duration_ms
                    },
                    ..old(self).state()
                },
                None => old(self).state(),
            }),
            final(self).order() == old(self).order(),
    {
        let duration = match &self.snapshot.current_item {
            Some(item) => item.duration_ms,
            None => {
                return;
            },
        };
        self.snapshot.position_ms = if position_ms < duration {
            position_ms
        } else {
            duration
        };
    }

    fn select_id(&mut self, id: &String)
        ensures
            selects(old(self).state(), final(self).state(), Some(id@)),
            final(self).order() == old(self).order(),
    {
        match position_of_item(&self.snapshot.queue, id) {
            Some(k) => {
                let item = self.snapshot.queue[k].duplicate();
                assert(item@ == old(self).state().queue[k as int]);
                self.snapshot.current_item = Some(item);
                self.snapshot.position_ms = 0;
            },
            None => {},
        }
    }

    /// Selects the following track and resets progress; the shuffle order decides when
    /// shuffle is on.
    pub fn next(&mut self)
        ensures
            selects(old(self).state(), final(self).state(), fake_next_id(old(self).state(), old(self).order())),
            final(self).order() == old(self).order(),
    {
        let current_id = match &self.snapshot.current_item {
            Some(item) => item.id.clone(),
            None => {
                return;
            },
        };
        let next_id = if self.snapshot.shuffle_enabled {
            match position_of_id(&self.shuffle_order, &current_id) {
                Some(i) => {
                    assert(self.shuffle_order.deep_view().len() == self.shuffle_order@.len());
                    let k = if i < self.shuffle_order.len() - 1 {
                        i + 1
                    } else {
                        0
                    };
                    proof {
                        let len = self.shuffle_order.deep_view().len();
                        if i + 1 < len {
                            vstd::arithmetic::div_mod::lemma_small_mod((i + 1) as nat, len);
                        } else {
                            vstd::arithmetic::div_mod::lemma_mod_self_0(len as int);
                        }
                    }
                    assert(k as int == (i as int + 1) % (self.shuffle_order.deep_view().len() as int));
                    assert(self.shuffle_order.deep_view()[k as int] == self.shuffle_order@[k as int]@);
                    self.shuffle_order[k].clone()
                },
                None => {
                    return;
                },
            }
        } else {
            match position_of_item(&self.snapshot.queue, &current_id) {
                Some(i) => {
                    assert(item_ids(items_view(self.snapshot.queue@)).len() == self.snapshot.queue@.len());
                    let k = if i < self.snapshot.queue.len() - 1 {
                        i + 1
                    } else {
                        0
                    };
                    proof {
                        let len = self.snapshot.queue@.len();
                        if i + 1 < len {
                            vstd::arithmetic::div_mod::lemma_small_mod((i + 1) as nat, len);
                        } else {
                            vstd::arithmetic::div_mod::lemma_mod_self_0(len as int);
                        }
                    }
                    assert(k as int == (i as int + 1) % (self.snapshot.queue@.len() as int));
                    assert(items_view(self.snapshot.queue@)[k as int].id == self.snapshot.queue@[k as int].id@);
                    self.snapshot.queue[k].id.clone()
                },
                None => {
                    return;
                },
            }
        };
        assert(fake_next_id(old(self).state(), old(self).order()) == Some(next_id@));
        self.select_id(&next_id);
    }

    /// Selects the preceding track and resets progress, wrapping to the last track: with
    /// shuffle on, the first queue entry of the previous ID in the shuffle order; with
    /// shuffle off, the queue entry just before the current track's.
    pub fn previous(&mut self)
        ensures
            old(self).state().shuffle_enabled ==> selects(
                old(self).state(),
                final(self).state(),
                fake_previous_id(old(self).state(), old(self).order()),
            ),
            !old(self).state().shuffle_enabled ==> selects_position(
                old(self).state(),
                final(self).state(),
                fake_previous_position(old(self).state()),
            ),
            final(self).order() == old(self).order(),
    {
        let current_id = match &self.snapshot.current_item {
            Some(item) => item.id.clone(),
            None => {
                return;
            },
        };
        if self.snapshot.shuffle_enabled {
            let previous_id = match position_of_id(&self.shuffle_order, &current_id) {
                Some(i) => {
                    assert(self.shuffle_order.deep_view().len() == self.shuffle_order@.len());
                    let k = if i == 0 {
                        self.shuffle_order.len() - 1
                    } else {
                        i - 1
                    };
                    assert(self.shuffle_order.deep_view()[k as int] == self.shuffle_order@[k as int]@);
                    self.shuffle_order[k].clone()
                },
                None => {
                    return;
                },
            };
            assert(fake_previous_id(old(self).state(), old(self).order()) == Some(previous_id@));
            self.select_id(&previous_id);
        } else {
            match position_of_item(&self.snapshot.queue, &current_id) {
                Some(i) => {
                    assert(item_ids(items_view(self.snapshot.queue@)).len() == self.snapshot.queue@.len());
                    let k = if i == 0 {
                        self.snapshot.queue.len() - 1
                    } else {
                        i - 1
                    };
                    assert(fake_previous_position(old(self).state()) == Some(k as int));
                    let item = self.snapshot.queue[k].duplicate();
                    assert(item@ == old(self).state().queue[k as int]);
                    self.snapshot.current_item = Some(item);
                    self.snapshot.position_ms = 0;
                },
                None => {},
            }
        }
    }

    /// Turns shuffle on with the current track first and the rest of the queue shuffled, or
    /// off with the order cleared. The queue itself does not change.
    pub fn toggle_shuffle(&mut self)
        ensures
            final(self).state() == (PlaybackSnapshotView {
                shuffle_enabled: !old(self).state().shuffle_enabled,
                ..old(self).state()
            }),
            final(self).order() == (if old(self).state().shuffle_enabled {
                Seq::<Seq<char>>::empty()
            } else {
                fake_shuffle_order(old(self).state())
            }),
    {
        self.snapshot.shuffle_enabled = !self.snapshot.shuffle_enabled;
        if self.snapshot.shuffle_enabled {
            let current_id = match &self.snapshot.current_item {
                Some(item) => Some(item.id.clone()),
                None => None,
            };
            let ghost queue = item_ids(self.state().queue);
            let ghost cur = current_track_id(self.state().current_item);
            let ghost pred = |id: Seq<char>| cur != Some(id);
            assert(current_id.deep_view() == cur);
            let mut ids: Vec<String> = Vec::new();
            let mut i: usize = 0;
            while i < self.snapshot.queue.len()
                invariant
                    i <= self.snapshot.queue@.len(),
                    queue == item_ids(items_view(self.snapshot.queue@)),
                    current_id.deep_view() == cur,
                    pred == (|id: Seq<char>| cur != Some(id)),
                    ids.deep_view() == queue.take(i as int).filter(pred),
                decreases self.snapshot.queue@.len() - i,
            {
                let keep = match &current_id {
                    Some(c) => self.snapshot.queue[i].id != *c,
                    None => true,
                };
                assert(queue[i as int] == self.snapshot.queue@[i as int].id@);
                assert(queue.take(i + 1).drop_last() =~= queue.take(i as int));
                assert(keep == pred(queue[i as int]));
                reveal_with_fuel(Seq::filter, 1);
                if keep {
                    let ghost before = ids.deep_view();
                    ids.push(self.snapshot.queue[i].id.clone());
                    assert(ids.deep_view() =~= before.push(queue[i as int]));
                }
                i = i + 1;
            }
            assert(queue.take(queue.len() as int) =~= queue);
            assert(ids.deep_view() == upcoming_ids(self.state().queue, cur));
            let ghost unshuffled = ids@;
            assert(ids.deep_view() =~= string_views(unshuffled));
            shuffle_upcoming(&mut ids, 0, FAKE_SHUFFLE_SEED);
            proof {
                lemma_shuffled_views(unshuffled, 0, FAKE_SHUFFLE_SEED);
                assert(ids.deep_view() =~= string_views(ids@));
            }
            match current_id {
                Some(c) => {
                    let ghost rest = ids.deep_view();
                    ids.insert(0, c);
                    assert(ids.deep_view() =~= seq![c@] + rest);
                },
                None => {},
            }
            self.shuffle_order = ids;
        } else {
            self.shuffle_order = Vec::new();
            assert(self.order() =~= Seq::<Seq<char>>::empty());
        }
    }

    pub fn cycle_repeat_mode(&mut self)
        ensures
            final(self).state() == (PlaybackSnapshotView {
                repeat_mode: next_repeat_mode(old(self).state().repeat_mode),
                ..old(self).state()
            }),
            final(self).order() == old(self).order(),
    {
        self.snapshot.repeat_mode = self.snapshot.repeat_mode.cycle();
    }

    /// Moves a queue entry to another position; the current track stays selected.
    pub fn move_queue_item(&mut self, from: usize, to: usize) -> (res: Result<(), PlaybackError>)
        ensures
            from >= old(self).state().queue.len() ==> res == Err::<(), PlaybackError>(
                PlaybackError::QueueIndexOutOfBounds { index: from },
            ) && final(self).state() == old(self).state(),
            from < old(self).state().queue.len() && to >= old(self).state().queue.len() ==> res
                == Err::<(), PlaybackError>(PlaybackError::QueueIndexOutOfBounds { index: to })
                && final(self).state() == old(self).state(),
            from < old(self).state().queue.len() && to < old(self).state().queue.len() ==> res
                is Ok && final(self).state() == (PlaybackSnapshotView {
                queue: old(self).state().queue.remove(from as int).insert(
                    to as int,
                    old(self).state().queue[from as int],
                ),
                ..old(self).state()
            }),
            final(self).order() == old(self).order(),
    {
        if from >= self.snapshot.queue.len() {
            return Err(PlaybackError::QueueIndexOutOfBounds { index: from });
        }
        if to >= self.snapshot.queue.len() {
            return Err(PlaybackError::QueueIndexOutOfBounds { index: to });
        }
        let ghost before = self.snapshot.queue@;
        let item = self.snapshot.queue.remove(from);
        self.snapshot.queue.insert(to, item);
        assert(items_view(self.snapshot.queue@) =~= items_view(before).remove(from as int).insert(
            to as int,
            items_view(before)[from as int],
        ));
        Ok(())
    }

    /// Sets the volume, which must be at most 100.
    pub fn set_volume(&mut self, volume_percent: u8) -> (res: Result<(), PlaybackError>)
        ensures
            volume_percent > 100 ==> res == Err::<(), PlaybackError>(PlaybackError::InvalidVolume)
                && final(self).state() == old(self).state(),
            volume_percent <= 100 ==> res is Ok && final(self).state() == (PlaybackSnapshotView {
                volume_percent,
                ..old(self).state()
            }),
            final(self).order() == old(self).order(),
    {
        if volume_percent > 100 {
            return Err(PlaybackError::InvalidVolume);
        }
        self.snapshot.volume_percent = volume_percent;
        Ok(())
    }
}

/// The character sequences of a list of strings.
pub open spec fn string_views(s: Seq<String>) -> Seq<Seq<char>> {
    Seq::new(s.len(), |i: int| s[i]@)
}

proof fn lemma_shuffle_from_views(s: Seq<String>, start: int, i: int, state: u64)
    ensures
        string_views(shuffle_from(s, start, i, state)) == shuffle_from(string_views(s), start, i, state),
    decreases i - start,
{
    if start < 0 || i <= start || i >= s.len() {
    } else {
        let next = xorshift(state);
        let j = start + (next as int) % (i - start + 1);
        lemma_shuffle_from_views(swap_spec(s, i, j), start, i - 1, next);
        assert(string_views(swap_spec(s, i, j)) =~= swap_spec(string_views(s), i, j));
    }
}

pub(crate) proof fn lemma_shuffled_views(s: Seq<String>, start: int, seed: u64)
    ensures
        string_views(shuffled(s, start, seed)) == shuffled(string_views(s), start, seed),
{
    lemma_shuffle_from_views(s, start, s.len() - 1, shuffle_seed(seed));
}


/// Cycling the repeat mode three times comes back to where it started.
pub proof fn lemma_repeat_mode_cycle(mode: RepeatMode)
    ensures
        next_repeat_mode(next_repeat_mode(next_repeat_mode(mode))) == mode,
        next_repeat_mode(mode) != mode,
{
}

proof fn lemma_swap_keeps_elements<A>(s: Seq<A>, i: int, j: int)
    requires
        0 <= i < s.len(),
        0 <= j < s.len(),
    ensures
        swap_spec(s, i, j).to_multiset() == s.to_multiset(),
        swap_spec(s, i, j).len() == s.len(),
{
    broadcast use vstd::seq_lib::to_multiset_update, vstd::multiset::group_multiset_axioms,
        vstd::seq_lib::to_multiset_contains;

    let t = s.update(i, s[j]);
    let m = s.to_multiset();
    assert(t[j] == s[j]);
    assert(s.contains(s[i]));
    assert(m.count(s[i]) > 0);
    assert(t.to_multiset() == m.insert(s[j]).remove(s[i]));
    assert(t.update(j, s[i]).to_multiset() == t.to_multiset().insert(s[i]).remove(s[j]));
    assert(m.insert(s[j]).remove(s[i]).insert(s[i]).remove(s[j]) =~= m);
}

proof fn lemma_shuffle_from_keeps_elements<A>(s: Seq<A>, start: int, i: int, state: u64)
    ensures
        shuffle_from(s, start, i, state).to_multiset() == s.to_multiset(),
        shuffle_from(s, start, i, state).len() == s.len(),
    decreases i - start,
{
    if start < 0 || i <= start || i >= s.len() {
    } else {
        let next = xorshift(state);
        let j = start + (next as int) % (i - start + 1);
        lemma_swap_keeps_elements(s, i, j);
        lemma_shuffle_from_keeps_elements(swap_spec(s, i, j), start, i - 1, next);
    }
}

/// Shuffling only reorders: the shuffled sequence holds the same elements, as often.
pub proof fn lemma_shuffle_is_permutation<A>(s: Seq<A>, start: int, seed: u64)
    ensures
        shuffled(s, start, seed).to_multiset() == s.to_multiset(),
        shuffled(s, start, seed).len() == s.len(),
{
    lemma_shuffle_from_keeps_elements(s, start, s.len() - 1, shuffle_seed(seed));
}

/// Shuffling leaves the elements before `start` where they are.
pub proof fn lemma_shuffle_keeps_prefix<A>(s: Seq<A>, start: int, seed: u64)
    requires
        0 <= start <= s.len(),
    ensures
        shuffled(s, start, seed).subrange(0, start) == s.subrange(0, start),
{
    lemma_shuffle_from_keeps_prefix(s, start, s.len() - 1, shuffle_seed(seed));
}

proof fn lemma_shuffle_from_keeps_prefix<A>(s: Seq<A>, start: int, i: int, state: u64)
    requires
        0 <= start <= s.len(),
    ensures
        shuffle_from(s, start, i, state).len() == s.len(),
        shuffle_from(s, start, i, state).subrange(0, start) == s.subrange(0, start),
    decreases i - start,
{
    if start < 0 || i <= start || i >= s.len() {
    } else {
        let next = xorshift(state);
        let j = start + (next as int) % (i - start + 1);
        lemma_shuffle_from_keeps_prefix(swap_spec(s, i, j), start, i - 1, next);
        assert(swap_spec(s, i, j).subrange(0, start) =~= s.subrange(0, start));
    }
}

/// In a list without repeats, the position of an element is where it stands.
proof fn lemma_first_index_distinct(ids: Seq<Seq<char>>, k: int)
    requires
        ids.no_duplicates(),
        0 <= k < ids.len(),
    ensures
        first_index(ids, ids[k]) == Some(k),
{
    crate::metadata::lemma_first_index_found(ids, ids[k], k);
}

/// One step forward through a list of `n` positions, wrapping, then one step back.
proof fn lemma_wrap_back(i: int, n: int)
    requires
        0 <= i < n,
    ensures
        0 <= (i + 1) % n < n,
        (if (i + 1) % n == 0 {
            n - 1
        } else {
            (i + 1) % n - 1
        }) == i,
{
    if i + 1 < n {
        vstd::arithmetic::div_mod::lemma_small_mod((i + 1) as nat, n as nat);
    } else {
        vstd::arithmetic::div_mod::lemma_mod_self_0(n);
    }
}

/// Stepping back after stepping forward returns to the track where the simulated player
/// started, in queue order and in shuffle order: the same track is current again at
/// position zero and nothing else changes. The queue holds each track once and the
/// current one; with shuffle on, the order holds each track once, the current one, and
/// only queued tracks.
pub proof fn lemma_previous_undoes_next(
    s: PlaybackSnapshotView,
    order: Seq<Seq<char>>,
    mid: PlaybackSnapshotView,
    end: PlaybackSnapshotView,
)
    requires
        s.current_item matches Some(c) && item_ids(s.queue).contains(c.id),
        item_ids(s.queue).no_duplicates(),
        s.shuffle_enabled ==> order.no_duplicates() && (s.current_item matches Some(c)
            && order.contains(c.id)) && (forall|k: int|
            0 <= k < order.len() ==> item_ids(s.queue).contains(#[trigger] order[k])),
        selects(s, mid, fake_next_id(s, order)),
        mid.shuffle_enabled ==> selects(mid, end, fake_previous_id(mid, order)),
        !mid.shuffle_enabled ==> selects_position(mid, end, fake_previous_position(mid)),
    ensures
        end.current_item matches Some(e) && s.current_item matches Some(c) && e.id == c.id,
        end == (PlaybackSnapshotView { current_item: end.current_item, position_ms: 0, ..s }),
{
    let c = s.current_item->0;
    let ids = item_ids(s.queue);
    let ci = choose|k: int| 0 <= k < ids.len() && ids[k] == c.id;
    lemma_first_index_distinct(ids, ci);
    if s.shuffle_enabled {
        let j = choose|k: int| 0 <= k < order.len() && order[k] == c.id;
        lemma_first_index_distinct(order, j);
        let m = order.len() as int;
        lemma_wrap_back(j, m);
        let nj = (j + 1) % m;
        let next_id = order[nj];
        assert(fake_next_id(s, order) == Some(next_id));
        assert(ids.contains(next_id));
        let qn = choose|k: int| 0 <= k < ids.len() && ids[k] == next_id;
        lemma_first_index_distinct(ids, qn);
        assert(mid == PlaybackSnapshotView { current_item: Some(s.queue[qn]), position_ms: 0, ..s });
        assert(s.queue[qn].id == next_id);
        lemma_first_index_distinct(order, nj);
        assert(fake_previous_id(mid, order) == Some(order[j]));
    } else {
        let n = s.queue.len() as int;
        lemma_wrap_back(ci, n);
        let nk = (ci + 1) % n;
        assert(fake_next_id(s, order) == Some(s.queue[nk].id));
        assert(ids[nk] == s.queue[nk].id);
        lemma_first_index_distinct(ids, nk);
        assert(mid == PlaybackSnapshotView { current_item: Some(s.queue[nk]), position_ms: 0, ..s });
        assert(item_ids(mid.queue) == ids);
        assert(fake_previous_position(mid) == Some(ci));
    }
}

} // verus!
