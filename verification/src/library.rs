//! The imported library and its play queue: tracks, playlists (with the two default ones),
//! play counts and the queue that the audio player follows. The player itself is driven
//! by the application; this state decides what it plays.
use vstd::prelude::*;

use crate::metadata::{
    entries_view, entry_ids, merge_queue_entries, merged, union_ids, QueueEntry, QueueEntryView,
    YouTubePlaybackError,
};
use crate::metadata::{
    empty_field_message, normalize_genres, normalized_values, optional_metadata_value,
    optional_value_spec, required_metadata_value,
};
use crate::model::{
    clone_strings, EditableTrackMetadata, LibrarySnapshot, MediaItem, MediaItemView, Playlist,
    PlaylistView, playlists_view,
};
use crate::text::trim_seq;
use crate::playback::{
    current_track_id, first_index, item_ids, items_view, next_repeat_mode, opt_item_view,
    shuffle_upcoming, shuffled, string_views, upcoming_ids, PlaybackSnapshot,
    PlaybackSnapshotView, PlaybackStatus, RepeatMode,
};

verus! {

/// The ID of the default playlist of favorite tracks.
pub open spec fn favorites_id() -> Seq<char> {
    "favorites"@
}

/// The ID of the default playlist of the most played tracks.
pub open spec fn most_played_id() -> Seq<char> {
    "most-played"@
}

/// The two default playlists are kept by the library itself.
pub open spec fn is_default_id(id: Seq<char>) -> bool {
    id == favorites_id() || id == most_played_id()
}

/// Whether a playlist ID names one of the default playlists.
pub fn is_default_playlist(id: &str) -> (r: bool)
    ensures
        r == is_default_id(id@),
{
    crate::text::str_equal(id, "favorites") || crate::text::str_equal(id, "most-played")
}

/// The imported library together with the play queue.
#[derive(Debug)]
pub struct YouTubePlaybackProvider {
    pub entries: Vec<QueueEntry>,
    pub playlists: Vec<Playlist>,
    pub shuffle_order: Vec<String>,
    pub snapshot: PlaybackSnapshot,
}

/// The mathematical value of the library and queue.
pub struct ProviderView {
    pub entries: Seq<QueueEntryView>,
    pub playlists: Seq<PlaylistView>,
    pub shuffle_order: Seq<Seq<char>>,
    pub snapshot: PlaybackSnapshotView,
}

impl View for YouTubePlaybackProvider {
    type V = ProviderView;

    open spec fn view(&self) -> ProviderView {
        ProviderView {
            entries: entries_view(self.entries@),
            playlists: playlists_view(self.playlists@),
            shuffle_order: self.shuffle_order.deep_view(),
            snapshot: self.snapshot@,
        }
    }
}

/// The state with other library entries.
pub open spec fn with_entries(v: ProviderView, entries: Seq<QueueEntryView>) -> ProviderView {
    ProviderView { entries, ..v }
}

/// The state with other playlists.
pub open spec fn with_playlists(v: ProviderView, playlists: Seq<PlaylistView>) -> ProviderView {
    ProviderView { playlists, ..v }
}

/// The entries with the track of entry `j` replaced.
pub open spec fn item_replaced(entries: Seq<QueueEntryView>, j: int, item: MediaItemView) -> Seq<
    QueueEntryView,
> {
    entries.update(j, QueueEntryView { item, ..entries[j] })
}

/// The IDs of a list of playlists.
pub open spec fn playlist_ids(playlists: Seq<PlaylistView>) -> Seq<Seq<char>> {
    playlists.map_values(|p: PlaylistView| p.id)
}

/// The tracks of the favorites playlist, empty when there is none.
pub open spec fn favorite_track_ids(playlists: Seq<PlaylistView>) -> Seq<Seq<char>> {
    match first_index(playlist_ids(playlists), favorites_id()) {
        Some(j) => playlists[j].track_ids,
        None => seq![],
    }
}

/// Track `a` (by library position) is listed before track `b` among the most played:
/// more plays first, ties in library order.
pub open spec fn played_before(counts: Seq<u64>, a: int, b: int) -> bool {
    counts[a] > counts[b] || (counts[a] == counts[b] && a < b)
}

/// Where index `x` goes in `sorted`: before the first index with fewer plays.
pub open spec fn insert_position(sorted: Seq<int>, counts: Seq<u64>, x: int) -> int
    decreases sorted.len(),
{
    if sorted.len() == 0 {
        0
    } else if counts[x] > counts[sorted[0]] {
        0
    } else {
        1 + insert_position(sorted.drop_first(), counts, x)
    }
}

/// The library positions of the played tracks of the first `n` tracks, most played first,
/// ties in library order.
pub open spec fn by_plays(counts: Seq<u64>, n: int) -> Seq<int>
    decreases n,
{
    if n <= 0 {
        seq![]
    } else {
        let prev = by_plays(counts, n - 1);
        if counts[n - 1] > 0 {
            prev.insert(insert_position(prev, counts, n - 1), n - 1)
        } else {
            prev
        }
    }
}

/// The play counts of the library's tracks.
pub open spec fn play_counts(entries: Seq<QueueEntryView>) -> Seq<u64> {
    entries.map_values(|e: QueueEntryView| e.item.play_count)
}

/// The IDs of the most played tracks (see `by_plays`).
pub open spec fn most_played_ids(entries: Seq<QueueEntryView>) -> Seq<Seq<char>> {
    by_plays(play_counts(entries), entries.len() as int).map_values(|i: int| entries[i].item.id)
}

/// The playlists that the user made.
pub open spec fn user_playlists(playlists: Seq<PlaylistView>) -> Seq<PlaylistView> {
    playlists.filter(|p: PlaylistView| !is_default_id(p.id))
}

/// The playlists as the library shows them: Favorites, Most Played, then the user's.
pub open spec fn playlists_with_defaults(v: ProviderView) -> Seq<PlaylistView> {
    seq![
        PlaylistView {
            id: favorites_id(),
            name: "Favorites"@,
            track_ids: favorite_track_ids(v.playlists),
        },
        PlaylistView {
            id: most_played_id(),
            name: "Most Played"@,
            track_ids: most_played_ids(v.entries),
        },
    ] + user_playlists(v.playlists)
}

/// The sum of the play counts.
pub open spec fn total_plays(entries: Seq<QueueEntryView>) -> nat
    decreases entries.len(),
{
    if entries.len() == 0 {
        0
    } else {
        total_plays(entries.drop_last()) + (entries.last().item.play_count as nat)
    }
}

/// The library's tracks.
pub open spec fn library_items(entries: Seq<QueueEntryView>) -> Seq<MediaItemView> {
    entries.map_values(|e: QueueEntryView| e.item)
}

/// What the library window shows of a state.
pub open spec fn shows_library(v: ProviderView, s: LibrarySnapshot) -> bool {
    &&& playlists_view(s.playlists@) == playlists_with_defaults(v)
    &&& s.total_plays == if total_plays(v.entries) > u64::MAX as nat {
        u64::MAX as nat
    } else {
        total_plays(v.entries)
    }
    &&& items_view(s.tracks@) == library_items(v.entries)
}

fn insert_position_exec(sorted: &Vec<usize>, counts: &Vec<u64>, x: usize) -> (res: usize)
    requires
        x < counts@.len(),
        forall|k: int| 0 <= k < sorted@.len() ==> (#[trigger] sorted@[k]) < counts@.len(),
    ensures
        res as int == insert_position(sorted@.map_values(|i: usize| i as int), counts@, x as int),
        res <= sorted@.len(),
{
    let ghost s = sorted@.map_values(|i: usize| i as int);
    assert(s.subrange(0, s.len() as int) =~= s);
    let mut p: usize = 0;
    while p < sorted.len()
        invariant
            p <= sorted@.len(),
            x < counts@.len(),
            s == sorted@.map_values(|i: usize| i as int),
            forall|k: int| 0 <= k < sorted@.len() ==> (#[trigger] sorted@[k]) < counts@.len(),
            insert_position(s, counts@, x as int) == p + insert_position(
                s.subrange(p as int, s.len() as int),
                counts@,
                x as int,
            ),
        decreases sorted@.len() - p,
    {
        let ghost rest = s.subrange(p as int, s.len() as int);
        assert(rest[0] == sorted@[p as int] as int);
        if counts[x] > counts[sorted[p]] {
            return p;
        }
        assert(rest.drop_first() =~= s.subrange(p + 1, s.len() as int));
        p = p + 1;
    }
    assert(s.subrange(p as int, s.len() as int).len() == 0);
    p
}

/// The index of the favorites playlist.
fn favorites_position(playlists: &Vec<Playlist>) -> (res: Option<usize>)
    ensures
        match res {
            Some(j) => first_index(playlist_ids(playlists_view(playlists@)), favorites_id()) == Some(
                j as int,
            ),
            None => first_index(playlist_ids(playlists_view(playlists@)), favorites_id()) is None,
        },
        res matches Some(j) ==> j < playlists@.len(),
{
    let ghost v = playlist_ids(playlists_view(playlists@));
    let mut i: usize = 0;
    while i < playlists.len()
        invariant
            i <= playlists.len(),
            v == playlist_ids(playlists_view(playlists@)),
            forall|j: int| 0 <= j < i ==> v[j] != favorites_id(),
        decreases playlists.len() - i,
    {
        assert(v[i as int] == playlists@[i as int].id@);
        if crate::text::str_equal(playlists[i].id.as_str(), "favorites") {
            proof {
                crate::metadata::lemma_first_index_found(v, favorites_id(), i as int);
            }
            return Some(i);
        }
        i = i + 1;
    }
    proof {
        if first_index(v, favorites_id()) is Some {
            let j = first_index(v, favorites_id())->0;
            assert(v[j] == favorites_id());
        }
    }
    None
}

impl YouTubePlaybackProvider {
    /// The IDs of the most played tracks.
    fn most_played(&self) -> (res: Vec<String>)
        ensures
            res.deep_view() == most_played_ids(self@.entries),
    {
        let ghost ev = self@.entries;
        let n = self.entries.len();
        let mut counts: Vec<u64> = Vec::new();
        let mut i: usize = 0;
        while i < n
            invariant
                i <= n,
                n == self.entries@.len(),
                ev == entries_view(self.entries@),
                counts@ =~= play_counts(ev).take(i as int),
            decreases n - i,
        {
            counts.push(self.entries[i].item.play_count);
            i = i + 1;
        }
        assert(counts@ =~= play_counts(ev));
        let mut sorted: Vec<usize> = Vec::new();
        let mut k: usize = 0;
        while k < n
            invariant
                k <= n,
                n == counts@.len(),
                sorted@.map_values(|i: usize| i as int) == by_plays(counts@, k as int),
                forall|t: int| 0 <= t < sorted@.len() ==> (#[trigger] sorted@[t]) < k,
            decreases n - k,
        {
            if counts[k] > 0 {
                let p = insert_position_exec(&sorted, &counts, k);
                let ghost before = sorted@.map_values(|i: usize| i as int);
                sorted.insert(p, k);
                assert(sorted@.map_values(|i: usize| i as int) =~= before.insert(p as int, k as int));
            }
            k = k + 1;
        }
        let mut res: Vec<String> = Vec::new();
        let mut j: usize = 0;
        while j < sorted.len()
            invariant
                j <= sorted@.len(),
                n == self.entries@.len(),
                ev == entries_view(self.entries@),
                forall|t: int| 0 <= t < sorted@.len() ==> (#[trigger] sorted@[t]) < n,
                res.deep_view() =~= sorted@.map_values(|i: usize| i as int).take(j as int).map_values(
                    |i: int| ev[i].item.id,
                ),
            decreases sorted@.len() - j,
        {
            let ghost before = res.deep_view();
            res.push(self.entries[sorted[j]].item.id.clone());
            assert(res.deep_view() =~= before.push(ev[sorted@[j as int] as int].item.id));
            j = j + 1;
        }
        assert(sorted@.map_values(|i: usize| i as int).take(sorted@.len() as int) =~= sorted@.map_values(
            |i: usize| i as int,
        ));
        res
    }
}


impl YouTubePlaybackProvider {
    /// The playlists as the library shows them (see `playlists_with_defaults`).
    pub fn playlists_with_defaults(&self) -> (res: Vec<Playlist>)
        ensures
            playlists_view(res@) == playlists_with_defaults(self@),
    {
        let favorites = match favorites_position(&self.playlists) {
            Some(j) => {
                assert(playlists_view(self.playlists@)[j as int] == self.playlists@[j as int]@);
                clone_strings(&self.playlists[j].track_ids)
            },
            None => {
                let v: Vec<String> = Vec::new();
                assert(v.deep_view() =~= Seq::<Seq<char>>::empty());
                v
            },
        };
        assert(favorites.deep_view() == favorite_track_ids(playlists_view(self.playlists@)));
        let mut res: Vec<Playlist> = Vec::new();
        res.push(
            Playlist {
                id: String::from_str("favorites"),
                name: String::from_str("Favorites"),
                track_ids: favorites,
            },
        );
        res.push(
            Playlist {
                id: String::from_str("most-played"),
                name: String::from_str("Most Played"),
                track_ids: self.most_played(),
            },
        );
        let ghost head = playlists_view(res@);
        let ghost pv = playlists_view(self.playlists@);
        let ghost pred = |p: PlaylistView| !is_default_id(p.id);
        let mut i: usize = 0;
        while i < self.playlists.len()
            invariant
                i <= self.playlists@.len(),
                pv == playlists_view(self.playlists@),
                pred == (|p: PlaylistView| !is_default_id(p.id)),
                playlists_view(res@) == head + pv.take(i as int).filter(pred),
            decreases self.playlists@.len() - i,
        {
            assert(pv.take(i + 1).drop_last() =~= pv.take(i as int));
            assert(pv[i as int] == self.playlists@[i as int]@);
            reveal_with_fuel(Seq::filter, 1);
            if !is_default_playlist(self.playlists[i].id.as_str()) {
                let ghost before = playlists_view(res@);
                res.push(self.playlists[i].duplicate());
                assert(playlists_view(res@) =~= before.push(pv[i as int]));
                assert(head + pv.take(i + 1).filter(pred) =~= (head + pv.take(i as int).filter(
                    pred,
                )).push(pv[i as int]));
            }
            i = i + 1;
        }
        assert(pv.take(pv.len() as int) =~= pv);
        assert(pv.filter(pred) == user_playlists(self@.playlists));
        assert(head[0] == playlists_with_defaults(self@)[0]);
        assert(head[1] == playlists_with_defaults(self@)[1]);
        assert(playlists_view(res@) =~= playlists_with_defaults(self@));
        res
    }

    /// The library as its window shows it (see `shows_library`); the total saturates at
    /// the largest `u64`.
    pub fn library_snapshot(&self) -> (res: LibrarySnapshot)
        ensures
            shows_library(self@, res),
    {
        let ghost ev = self@.entries;
        let mut total: u64 = 0;
        let mut tracks: Vec<MediaItem> = Vec::new();
        let mut i: usize = 0;
        while i < self.entries.len()
            invariant
                i <= self.entries@.len(),
                ev == entries_view(self.entries@),
                total == if total_plays(ev.take(i as int)) > u64::MAX as nat {
                    u64::MAX as nat
                } else {
                    total_plays(ev.take(i as int))
                },
                items_view(tracks@) =~= library_items(ev.take(i as int)),
            decreases self.entries@.len() - i,
        {
            assert(ev.take(i + 1).drop_last() =~= ev.take(i as int));
            total = total.saturating_add(self.entries[i].item.play_count);
            let ghost before = items_view(tracks@);
            tracks.push(self.entries[i].item.duplicate());
            assert(items_view(tracks@) =~= before.push(ev[i as int].item));
            i = i + 1;
        }
        assert(ev.take(ev.len() as int) =~= ev);
        LibrarySnapshot { playlists: self.playlists_with_defaults(), total_plays: total, tracks }
    }
}


/// The library's copy of a track.
pub open spec fn library_item_of(entries: Seq<QueueEntryView>, id: Seq<char>) -> Option<
    MediaItemView,
> {
    match first_index(entry_ids(entries), id) {
        Some(j) => Some(entries[j].item),
        None => None,
    }
}

/// The queue with each track replaced by the library's copy, tracks no longer in the
/// library left out.
pub open spec fn reconciled_queue(entries: Seq<QueueEntryView>, queue: Seq<MediaItemView>) -> Seq<
    MediaItemView,
>
    decreases queue.len(),
{
    if queue.len() == 0 {
        seq![]
    } else {
        let prev = reconciled_queue(entries, queue.drop_last());
        match library_item_of(entries, queue.last().id) {
            Some(item) => prev.push(item),
            None => prev,
        }
    }
}

/// The current track as the library now has it, or none when it left the library.
pub open spec fn reconciled_current(entries: Seq<QueueEntryView>, current: Option<MediaItemView>) -> Option<
    MediaItemView,
> {
    match current {
        Some(c) => library_item_of(entries, c.id),
        None => None,
    }
}

/// The shuffle order kept in step with the queue: empty without shuffle; else the tracks
/// still queued, in their shuffled order, then the queued tracks it lacks, in queue order.
pub open spec fn reconciled_order(shuffle: bool, order: Seq<Seq<char>>, queue: Seq<MediaItemView>) -> Seq<
    Seq<char>,
> {
    if !shuffle {
        seq![]
    } else {
        union_ids(order.filter(|id: Seq<char>| item_ids(queue).contains(id)), item_ids(queue))
    }
}

/// A state with its shuffle order kept in step with its queue.
pub open spec fn order_reconciled(v: ProviderView) -> ProviderView {
    ProviderView {
        shuffle_order: reconciled_order(v.snapshot.shuffle_enabled, v.shuffle_order, v.snapshot.queue),
        ..v
    }
}

/// A state whose queue and current track follow the library again.
pub open spec fn reconciled(v: ProviderView) -> ProviderView {
    order_reconciled(
        ProviderView {
            snapshot: PlaybackSnapshotView {
                queue: reconciled_queue(v.entries, v.snapshot.queue),
                current_item: reconciled_current(v.entries, v.snapshot.current_item),
                ..v.snapshot
            },
            ..v
        },
    )
}

/// The first entry of a track, by ID.
fn position_of_track(entries: &Vec<QueueEntry>, id: &str) -> (res: Option<usize>)
    ensures
        match res {
            Some(i) => first_index(entry_ids(entries_view(entries@)), id@) == Some(i as int),
            None => first_index(entry_ids(entries_view(entries@)), id@) is None,
        },
        res matches Some(i) ==> i < entries@.len(),
{
    let ghost v = entry_ids(entries_view(entries@));
    let mut i: usize = 0;
    while i < entries.len()
        invariant
            i <= entries.len(),
            v == entry_ids(entries_view(entries@)),
            forall|j: int| 0 <= j < i ==> v[j] != id@,
        decreases entries.len() - i,
    {
        assert(v[i as int] == entries@[i as int].item.id@);
        if crate::text::str_equal(entries[i].item.id.as_str(), id) {
            proof {
                crate::metadata::lemma_first_index_found(v, id@, i as int);
            }
            return Some(i);
        }
        i = i + 1;
    }
    proof {
        if first_index(v, id@) is Some {
            let j = first_index(v, id@)->0;
            assert(v[j] == id@);
        }
    }
    None
}

/// Whether a queue holds a track.
fn queue_has(queue: &Vec<MediaItem>, id: &String) -> (r: bool)
    ensures
        r == item_ids(items_view(queue@)).contains(id@),
{
    let ghost v = item_ids(items_view(queue@));
    let mut i: usize = 0;
    while i < queue.len()
        invariant
            i <= queue.len(),
            v == item_ids(items_view(queue@)),
            forall|j: int| 0 <= j < i ==> v[j] != id@,
        decreases queue.len() - i,
    {
        assert(v[i as int] == queue@[i as int].id@);
        if queue[i].id == *id {
            return true;
        }
        i = i + 1;
    }
    false
}

/// Whether a list of IDs holds one.
pub fn ids_have_pub(ids: &Vec<String>, id: &String) -> (r: bool)
    ensures
        r == ids.deep_view().contains(id@),
{
    ids_have(ids, id)
}

/// Whether a list of IDs holds one.
fn ids_have(ids: &Vec<String>, id: &String) -> (r: bool)
    ensures
        r == ids.deep_view().contains(id@),
{
    let mut i: usize = 0;
    while i < ids.len()
        invariant
            i <= ids.len(),
            forall|j: int| 0 <= j < i ==> ids.deep_view()[j] != id@,
        decreases ids.len() - i,
    {
        assert(ids.deep_view()[i as int] == ids@[i as int]@);
        if ids[i] == *id {
            return true;
        }
        i = i + 1;
    }
    false
}

impl YouTubePlaybackProvider {
    /// Keeps the shuffle order in step with the queue (see `reconciled_order`).
    pub fn reconcile_shuffle_order(&mut self)
        ensures
            final(self)@ == order_reconciled(old(self)@),
    {
        if !self.snapshot.shuffle_enabled {
            self.shuffle_order = Vec::new();
            assert(self@.shuffle_order =~= Seq::<Seq<char>>::empty());
            return;
        }
        let ghost queue_ids = item_ids(self@.snapshot.queue);
        let ghost order = self@.shuffle_order;
        let ghost pred = |id: Seq<char>| item_ids(self@.snapshot.queue).contains(id);
        let mut kept: Vec<String> = Vec::new();
        let mut i: usize = 0;
        while i < self.shuffle_order.len()
            invariant
                i <= self.shuffle_order@.len(),
                order == self.shuffle_order.deep_view(),
                queue_ids == item_ids(items_view(self.snapshot.queue@)),
                pred == (|id: Seq<char>| item_ids(items_view(self.snapshot.queue@)).contains(id)),
                kept.deep_view() == order.take(i as int).filter(pred),
            decreases self.shuffle_order@.len() - i,
        {
            assert(order.take(i + 1).drop_last() =~= order.take(i as int));
            assert(order[i as int] == self.shuffle_order@[i as int]@);
            reveal_with_fuel(Seq::filter, 1);
            if queue_has(&self.snapshot.queue, &self.shuffle_order[i]) {
                let ghost before = kept.deep_view();
                kept.push(self.shuffle_order[i].clone());
                assert(kept.deep_view() =~= before.push(order[i as int]));
            }
            i = i + 1;
        }
        assert(order.take(order.len() as int) =~= order);
        let ghost base = kept.deep_view();
        let mut k: usize = 0;
        while k < self.snapshot.queue.len()
            invariant
                k <= self.snapshot.queue@.len(),
                queue_ids == item_ids(items_view(self.snapshot.queue@)),
                kept.deep_view() == union_ids(base, queue_ids.take(k as int)),
            decreases self.snapshot.queue@.len() - k,
        {
            assert(queue_ids.take(k + 1).drop_last() =~= queue_ids.take(k as int));
            assert(queue_ids[k as int] == self.snapshot.queue@[k as int].id@);
            if !ids_have(&kept, &self.snapshot.queue[k].id) {
                let ghost before = kept.deep_view();
                kept.push(self.snapshot.queue[k].id.clone());
                assert(kept.deep_view() =~= before.push(queue_ids[k as int]));
            }
            k = k + 1;
        }
        assert(queue_ids.take(queue_ids.len() as int) =~= queue_ids);
        self.shuffle_order = kept;
    }

    /// Refreshes the queue and the current track from the library and keeps the shuffle
    /// order in step (see `reconciled`).
    pub fn reconcile_queue(&mut self)
        ensures
            final(self)@ == reconciled(old(self)@),
    {
        let ghost ev = self@.entries;
        let ghost qv = self@.snapshot.queue;
        let mut queue: Vec<MediaItem> = Vec::new();
        let mut i: usize = 0;
        while i < self.snapshot.queue.len()
            invariant
                i <= self.snapshot.queue@.len(),
                ev == entries_view(self.entries@),
                qv == items_view(self.snapshot.queue@),
                items_view(queue@) == reconciled_queue(ev, qv.take(i as int)),
            decreases self.snapshot.queue@.len() - i,
        {
            assert(qv.take(i + 1).drop_last() =~= qv.take(i as int));
            assert(qv[i as int] == self.snapshot.queue@[i as int]@);
            match position_of_track(&self.entries, self.snapshot.queue[i].id.as_str()) {
                Some(j) => {
                    let ghost before = items_view(queue@);
                    queue.push(self.entries[j].item.duplicate());
                    assert(items_view(queue@) =~= before.push(ev[j as int].item));
                },
                None => {},
            }
            i = i + 1;
        }
        assert(qv.take(qv.len() as int) =~= qv);
        let current = match &self.snapshot.current_item {
            Some(c) => match position_of_track(&self.entries, c.id.as_str()) {
                Some(j) => Some(self.entries[j].item.duplicate()),
                None => None,
            },
            None => None,
        };
        self.snapshot.queue = queue;
        self.snapshot.current_item = current;
        self.reconcile_shuffle_order();
    }
}


/// The track list with `id` taken out where it is, or added at the end where it is not.
pub open spec fn toggled(ids: Seq<Seq<char>>, id: Seq<char>) -> Seq<Seq<char>> {
    match first_index(ids, id) {
        Some(k) => ids.remove(k),
        None => ids.push(id),
    }
}

/// The playlists after a favorite is toggled; the favorites playlist is created when
/// missing.
pub open spec fn favorites_toggled(playlists: Seq<PlaylistView>, id: Seq<char>) -> Seq<
    PlaylistView,
> {
    match first_index(playlist_ids(playlists), favorites_id()) {
        Some(j) => playlists.update(
            j,
            PlaylistView { track_ids: toggled(playlists[j].track_ids, id), ..playlists[j] },
        ),
        None => playlists.push(
            PlaylistView { id: favorites_id(), name: "Favorites"@, track_ids: seq![id] },
        ),
    }
}

/// The library holds a track with this ID.
pub open spec fn has_track(v: ProviderView, id: Seq<char>) -> bool {
    entry_ids(v.entries).contains(id)
}

/// Whether a track is in the library.
fn has_track_exec(entries: &Vec<QueueEntry>, id: &str) -> (r: bool)
    ensures
        r == entry_ids(entries_view(entries@)).contains(id@),
{
    match position_of_track(entries, id) {
        Some(i) => {
            assert(entry_ids(entries_view(entries@))[i as int] == id@);
            true
        },
        None => {
            proof {
                let ids = entry_ids(entries_view(entries@));
                if ids.contains(id@) {
                    let k = choose|k: int| 0 <= k < ids.len() && ids[k] == id@;
                    crate::metadata::lemma_first_index_found(ids, id@, k);
                }
            }
            false
        },
    }
}

/// The first position of an ID in a list.
fn position_in(ids: &Vec<String>, id: &str) -> (res: Option<usize>)
    ensures
        match res {
            Some(i) => first_index(ids.deep_view(), id@) == Some(i as int),
            None => first_index(ids.deep_view(), id@) is None,
        },
        res matches Some(i) ==> i < ids@.len(),
{
    let ghost v = ids.deep_view();
    let mut i: usize = 0;
    while i < ids.len()
        invariant
            i <= ids.len(),
            v == ids.deep_view(),
            forall|j: int| 0 <= j < i ==> v[j] != id@,
        decreases ids.len() - i,
    {
        assert(v[i as int] == ids@[i as int]@);
        if crate::text::str_equal(ids[i].as_str(), id) {
            proof {
                crate::metadata::lemma_first_index_found(v, id@, i as int);
            }
            return Some(i);
        }
        i = i + 1;
    }
    proof {
        if first_index(v, id@) is Some {
            let j = first_index(v, id@)->0;
            assert(v[j] == id@);
        }
    }
    None
}

/// A track with the user's edits applied.
pub open spec fn edited(
    item: MediaItemView,
    title: Seq<char>,
    artist: Seq<char>,
    album: Option<Seq<char>>,
    label: Option<Seq<char>>,
    genres: Seq<Seq<char>>,
) -> MediaItemView {
    MediaItemView { title, artist, album, label, genres, ..item }
}

/// The edits of a metadata form after normalization: title and artist trimmed, album and
/// label trimmed or dropped when blank, genres normalized.
pub open spec fn applied_edit(item: MediaItemView, m: EditableTrackMetadata) -> MediaItemView {
    edited(
        item,
        trim_seq(m.title@),
        trim_seq(m.artist@),
        optional_value_spec(m.album.deep_view()),
        optional_value_spec(m.label.deep_view()),
        normalized_values(m.genres.deep_view()),
    )
}

/// The error of an invalid metadata form, if any: a blank title, then a blank artist.
pub open spec fn metadata_form_error(m: EditableTrackMetadata) -> Option<Seq<char>> {
    if trim_seq(m.title@).len() == 0 {
        Some(empty_field_message("title"@))
    } else if trim_seq(m.artist@).len() == 0 {
        Some(empty_field_message("artist"@))
    } else {
        None
    }
}

/// The library with the first entry of `id` edited.
pub open spec fn with_entry_edited(
    entries: Seq<QueueEntryView>,
    id: Seq<char>,
    m: EditableTrackMetadata,
) -> Seq<QueueEntryView> {
    match first_index(entry_ids(entries), id) {
        Some(j) => item_replaced(entries, j, applied_edit(entries[j].item, m)),
        None => entries,
    }
}

/// The play history after a play at `t`: the newest 500 plays.
pub open spec fn history_after(history: Seq<u64>, t: u64) -> Seq<u64> {
    let h = history.push(t);
    if h.len() > 500 {
        h.subrange(h.len() - 500, h.len() as int)
    } else {
        h
    }
}

/// A track after a play started at `t`.
pub open spec fn played(item: MediaItemView, t: u64) -> MediaItemView {
    MediaItemView {
        play_count: if item.play_count == u64::MAX {
            u64::MAX
        } else {
            (item.play_count + 1) as u64
        },
        last_played_at_ms: Some(t),
        play_history_ms: history_after(item.play_history_ms, t),
        ..item
    }
}

/// The library after a play of the first entry of `id` started at `t`.
pub open spec fn played_entries(entries: Seq<QueueEntryView>, id: Seq<char>, t: u64) -> Seq<
    QueueEntryView,
> {
    match first_index(entry_ids(entries), id) {
        Some(j) => item_replaced(entries, j, played(entries[j].item, t)),
        None => entries,
    }
}

/// An edited normalized metadata form.
pub struct NormalizedEdit {
    pub title: String,
    pub artist: String,
    pub album: Option<String>,
    pub label: Option<String>,
    pub genres: Vec<String>,
}

/// Normalizes a metadata form; a blank title or artist is refused.
fn normalize_edit(metadata: EditableTrackMetadata) -> (res: Result<
    NormalizedEdit,
    YouTubePlaybackError,
>)
    ensures
        match metadata_form_error(metadata) {
            Some(m) => res matches Err(YouTubePlaybackError::InvalidTrackMetadata(e)) && e@ == m,
            None => res matches Ok(n) && n.title@ == trim_seq(metadata.title@) && n.artist@
                == trim_seq(metadata.artist@) && n.album.deep_view() == optional_value_spec(
                metadata.album.deep_view(),
            ) && n.label.deep_view() == optional_value_spec(metadata.label.deep_view())
                && n.genres.deep_view() == normalized_values(metadata.genres.deep_view()),
        },
{
    proof {
        reveal_strlit("title");
        reveal_strlit("artist");
    }
    let ghost m = metadata;
    let title = required_metadata_value(metadata.title, "title")?;
    let artist = required_metadata_value(metadata.artist, "artist")?;
    Ok(
        NormalizedEdit {
            title,
            artist,
            album: optional_metadata_value(metadata.album),
            label: optional_metadata_value(metadata.label),
            genres: normalize_genres(metadata.genres),
        },
    )
}

impl YouTubePlaybackProvider {
    /// Adds a track to the favorites or takes it out (see `favorites_toggled`). A track
    /// that is not in the library is `TrackNotFound`.
    pub fn toggle_favorite(&mut self, id: &str) -> (res: Result<LibrarySnapshot, YouTubePlaybackError>)
        ensures
            !has_track(old(self)@, id@) ==> (res matches Err(YouTubePlaybackError::TrackNotFound { id: e })
                && e@ == id@ && final(self)@ == old(self)@),
            has_track(old(self)@, id@) ==> (res matches Ok(snap) && final(self)@ == with_playlists(
                old(self)@,
                favorites_toggled(old(self)@.playlists, id@),
            ) && shows_library(final(self)@, snap)),
    {
        if !has_track_exec(&self.entries, id) {
            return Err(YouTubePlaybackError::TrackNotFound { id: String::from_str(id) });
        }
        let ghost pv = self@.playlists;
        let j = match favorites_position(&self.playlists) {
            Some(j) => j,
            None => {
                self.playlists.push(
                    Playlist {
                        id: String::from_str("favorites"),
                        name: String::from_str("Favorites"),
                        track_ids: Vec::new(),
                    },
                );
                self.playlists.len() - 1
            },
        };
        let ghost mid = self@.playlists;
        let mut favorites = self.playlists.remove(j);
        match position_in(&favorites.track_ids, id) {
            Some(k) => {
                let ghost before = favorites.track_ids.deep_view();
                favorites.track_ids.remove(k);
                assert(favorites.track_ids.deep_view() =~= before.remove(k as int));
            },
            None => {
                let ghost before = favorites.track_ids.deep_view();
                favorites.track_ids.push(String::from_str(id));
                assert(favorites.track_ids.deep_view() =~= before.push(id@));
            },
        }
        self.playlists.insert(j, favorites);
        proof {
            match first_index(playlist_ids(pv), favorites_id()) {
                Some(j0) => {
                    assert(self@.playlists =~= favorites_toggled(pv, id@));
                },
                None => {
                    assert(mid =~= pv.push(mid[j as int]));
                    assert(mid[j as int].track_ids =~= Seq::<Seq<char>>::empty());
                    assert(first_index(Seq::<Seq<char>>::empty(), id@) is None);
                    assert(self@.playlists =~= favorites_toggled(pv, id@));
                },
            }
        }
        Ok(self.library_snapshot())
    }
}


/// The first invalid form of a batch, in order.
pub open spec fn first_form_error(updates: Seq<(String, EditableTrackMetadata)>) -> Option<
    Seq<char>,
>
    decreases updates.len(),
{
    if updates.len() == 0 {
        None
    } else {
        match first_form_error(updates.drop_last()) {
            Some(m) => Some(m),
            None => metadata_form_error(updates.last().1),
        }
    }
}

/// The track IDs of a batch of edits.
pub open spec fn update_ids(updates: Seq<(String, EditableTrackMetadata)>) -> Seq<Seq<char>> {
    updates.map_values(|u: (String, EditableTrackMetadata)| u.0@)
}

/// The library with a batch of edits applied in order.
pub open spec fn edits_applied(
    entries: Seq<QueueEntryView>,
    updates: Seq<(String, EditableTrackMetadata)>,
) -> Seq<QueueEntryView>
    decreases updates.len(),
{
    if updates.len() == 0 {
        entries
    } else {
        with_entry_edited(
            edits_applied(entries, updates.drop_last()),
            updates.last().0@,
            updates.last().1,
        )
    }
}

/// Editing keeps the track IDs of the library.
proof fn lemma_edits_keep_ids(entries: Seq<QueueEntryView>, updates: Seq<(String, EditableTrackMetadata)>)
    ensures
        entry_ids(edits_applied(entries, updates)) == entry_ids(entries),
    decreases updates.len(),
{
    if updates.len() > 0 {
        lemma_edits_keep_ids(entries, updates.drop_last());
        let prev = edits_applied(entries, updates.drop_last());
        match first_index(entry_ids(prev), updates.last().0@) {
            Some(j) => {
                assert(entry_ids(with_entry_edited(prev, updates.last().0@, updates.last().1))
                    =~= entry_ids(prev));
            },
            None => {},
        }
    }
}

impl YouTubePlaybackProvider {
    /// Applies normalized edits to the first entry of a track.
    fn apply_edit(&mut self, j: usize, edit: NormalizedEdit)
        requires
            j < old(self).entries@.len(),
        ensures
            final(self)@ == with_entries(
                old(self)@,
                item_replaced(
                    old(self)@.entries,
                    j as int,
                    edited(
                        old(self)@.entries[j as int].item,
                        edit.title@,
                        edit.artist@,
                        edit.album.deep_view(),
                        edit.label.deep_view(),
                        edit.genres.deep_view(),
                    ),
                ),
            ),
    {
        let mut entry = self.entries.remove(j);
        entry.item.title = edit.title;
        entry.item.artist = edit.artist;
        entry.item.album = edit.album;
        entry.item.label = edit.label;
        entry.item.genres = edit.genres;
        self.entries.insert(j, entry);
        assert(self@.entries =~= old(self)@.entries.update(j as int, entry@));
    }

    /// Edits a track's title, artist, album, label and genres. The form is checked
    /// first (`InvalidTrackMetadata`), then the track (`TrackNotFound`); the queue and
    /// the current track then show the edit.
    pub fn update_track_metadata(&mut self, id: &str, metadata: EditableTrackMetadata) -> (res:
        Result<LibrarySnapshot, YouTubePlaybackError>)
        ensures
            match metadata_form_error(metadata) {
                Some(m) => res matches Err(YouTubePlaybackError::InvalidTrackMetadata(e)) && e@ == m
                    && final(self)@ == old(self)@,
                None => if !has_track(old(self)@, id@) {
                    res matches Err(YouTubePlaybackError::TrackNotFound { id: e }) && e@ == id@
                        && final(self)@ == old(self)@
                } else {
                    res matches Ok(snap) && final(self)@ == reconciled(
                        with_entries(old(self)@, with_entry_edited(old(self)@.entries, id@, metadata)),
                    ) && shows_library(final(self)@, snap)
                },
            },
    {
        let ghost m = metadata;
        let edit = normalize_edit(metadata)?;
        let j = match position_of_track(&self.entries, id) {
            Some(j) => j,
            None => {
                proof {
                    let ids = entry_ids(self@.entries);
                    if ids.contains(id@) {
                        let k = choose|k: int| 0 <= k < ids.len() && ids[k] == id@;
                        crate::metadata::lemma_first_index_found(ids, id@, k);
                    }
                }
                return Err(YouTubePlaybackError::TrackNotFound { id: String::from_str(id) });
            },
        };
        proof {
            assert(entry_ids(self@.entries)[j as int] == id@);
        }
        self.apply_edit(j, edit);
        self.reconcile_queue();
        Ok(self.library_snapshot())
    }

    /// Records that a track started playing at `played_at_ms`: one more play
    /// (saturating), the last play time and the newest 500 plays of its history.
    pub fn record_playback_start(&mut self, id: &str, played_at_ms: u64) -> (res: Result<
        LibrarySnapshot,
        YouTubePlaybackError,
    >)
        ensures
            !has_track(old(self)@, id@) ==> (res matches Err(YouTubePlaybackError::TrackNotFound { id: e })
                && e@ == id@ && final(self)@ == old(self)@),
            has_track(old(self)@, id@) ==> (res matches Ok(snap) && final(self)@ == reconciled(
                with_entries(old(self)@, played_entries(old(self)@.entries, id@, played_at_ms)),
            ) && shows_library(final(self)@, snap)),
    {
        let j = match position_of_track(&self.entries, id) {
            Some(j) => j,
            None => {
                proof {
                    let ids = entry_ids(self@.entries);
                    if ids.contains(id@) {
                        let k = choose|k: int| 0 <= k < ids.len() && ids[k] == id@;
                        crate::metadata::lemma_first_index_found(ids, id@, k);
                    }
                }
                return Err(YouTubePlaybackError::TrackNotFound { id: String::from_str(id) });
            },
        };
        proof {
            assert(entry_ids(self@.entries)[j as int] == id@);
        }
        let ghost before = self@;
        let mut entry = self.entries.remove(j);
        entry.item.play_count = entry.item.play_count.saturating_add(1);
        entry.item.last_played_at_ms = Some(played_at_ms);
        let mut history = entry.item.play_history_ms;
        history.push(played_at_ms);
        let ghost h = history@;
        if history.len() > 500 {
            let excess = history.len() - 500;
            let mut kept: Vec<u64> = Vec::new();
            let mut k: usize = excess;
            while k < history.len()
                invariant
                    excess <= k <= history@.len(),
                    h == history@,
                    kept@ =~= h.subrange(excess as int, k as int),
                decreases history@.len() - k,
            {
                kept.push(history[k]);
                k = k + 1;
            }
            history = kept;
        }
        entry.item.play_history_ms = history;
        self.entries.insert(j, entry);
        assert(self@.entries =~= played_entries(before.entries, id@, played_at_ms));
        self.reconcile_queue();
        Ok(self.library_snapshot())
    }
}


/// A normalized form is the normalization of a raw form.
pub open spec fn normalizes(n: NormalizedEdit, m: EditableTrackMetadata) -> bool {
    &&& n.title@ == trim_seq(m.title@)
    &&& n.artist@ == trim_seq(m.artist@)
    &&& n.album.deep_view() == optional_value_spec(m.album.deep_view())
    &&& n.label.deep_view() == optional_value_spec(m.label.deep_view())
    &&& n.genres.deep_view() == normalized_values(m.genres.deep_view())
}

impl YouTubePlaybackProvider {
    /// Edits several tracks at once, all or nothing. Refused, in this order: an invalid
    /// form (`InvalidTrackMetadata`, the first one), a track named twice
    /// (`InvalidTrackMetadata`), a track that is not in the library (`TrackNotFound`,
    /// naming one such track).
    pub fn update_tracks_metadata(&mut self, updates: Vec<(String, EditableTrackMetadata)>) -> (res:
        Result<LibrarySnapshot, YouTubePlaybackError>)
        ensures
            first_form_error(updates@) matches Some(m) ==> (res matches Err(
                YouTubePlaybackError::InvalidTrackMetadata(e),
            ) && e@ == m && final(self)@ == old(self)@),
            first_form_error(updates@) is None && !update_ids(updates@).no_duplicates() ==> (res matches Err(
                YouTubePlaybackError::InvalidTrackMetadata(e),
            ) && e@ == "the batch contains duplicate track IDs"@ && final(self)@ == old(self)@),
            first_form_error(updates@) is None && update_ids(updates@).no_duplicates() && (exists|
                i: int,
            |
                0 <= i < updates@.len() && !has_track(old(self)@, #[trigger] update_ids(updates@)[i]))
                ==> (res matches Err(YouTubePlaybackError::TrackNotFound { id: e })
                && update_ids(updates@).contains(e@) && !has_track(old(self)@, e@) && final(self)@
                == old(self)@),
            first_form_error(updates@) is None && update_ids(updates@).no_duplicates() && (forall|
                i: int,
            |
                0 <= i < updates@.len() ==> has_track(old(self)@, #[trigger] update_ids(updates@)[i]))
                ==> (res matches Ok(snap) && final(self)@ == reconciled(
                with_entries(old(self)@, edits_applied(old(self)@.entries, updates@)),
            ) && shows_library(final(self)@, snap)),
    {
        let ghost ups = updates@;
        let ghost ids = update_ids(ups);
        let mut ids_vec: Vec<String> = Vec::new();
        let mut edits: Vec<NormalizedEdit> = Vec::new();
        for update in it: updates.into_iter()
            invariant
                it.seq() == ups,
                ids == update_ids(ups),
                first_form_error(ups.take(it.index() as int)) is None,
                ids_vec.deep_view() == ids.take(it.index() as int),
                edits@.len() == it.index(),
                forall|k: int| 0 <= k < it.index() ==> normalizes(#[trigger] edits@[k], ups[k].1),
                self@ == old(self)@,
        {
            let ghost k = it.index();
            assert(ups.take(k + 1).drop_last() =~= ups.take(k as int));
            assert(ups[k as int] == update);
            let (id, metadata) = update;
            match normalize_edit(metadata) {
                Ok(n) => {
                    let ghost before = ids_vec.deep_view();
                    ids_vec.push(id);
                    assert(ids_vec.deep_view() =~= before.push(ids[k as int]));
                    assert(ids.take(k + 1) =~= ids.take(k as int).push(ids[k as int]));
                    edits.push(n);
                },
                Err(e) => {
                    assert(first_form_error(ups.take(k + 1)) == metadata_form_error(ups[k as int].1));
                    proof {
                        lemma_first_form_error_prefix(ups, k + 1);
                    }
                    return Err(e);
                },
            }
        }
        assert(ups.take(ups.len() as int) =~= ups);
        assert(ids.take(ids.len() as int) =~= ids);
        let n = ids_vec.len();
        let ghost es = edits@;
        let mut a: usize = 0;
        while a < n
            invariant
                a <= n,
                n == ids_vec@.len(),
                ids_vec.deep_view() == ids,
                ids == update_ids(ups),
                ups == updates@,
                first_form_error(ups) is None,
                self@ == old(self)@,
                forall|x: int, y: int| 0 <= x < a && x < y < n ==> ids[x] != ids[y],
            decreases n - a,
        {
            let mut b: usize = a + 1;
            while b < n
                invariant
                    a < n,
                    a + 1 <= b <= n,
                    n == ids_vec@.len(),
                    ids_vec.deep_view() == ids,
                    ids == update_ids(ups),
                    ups == updates@,
                    first_form_error(ups) is None,
                    self@ == old(self)@,
                    forall|x: int, y: int| 0 <= x < a && x < y < n ==> ids[x] != ids[y],
                    forall|y: int| a < y < b ==> ids[a as int] != ids[y],
                decreases n - b,
            {
                assert(ids[a as int] == ids_vec@[a as int]@ && ids[b as int] == ids_vec@[b as int]@);
                if ids_vec[a] == ids_vec[b] {
                    assert(!ids.no_duplicates());
                    return Err(
                        YouTubePlaybackError::InvalidTrackMetadata(
                            String::from_str("the batch contains duplicate track IDs"),
                        ),
                    );
                }
                b = b + 1;
            }
            a = a + 1;
        }
        assert(ids.no_duplicates()) by {
            assert forall|x: int, y: int| 0 <= x < ids.len() && 0 <= y < ids.len() && x != y implies ids[x] != ids[y] by {
                if x > y {
                    assert(ids[y] != ids[x]);
                }
            }
        }
        let mut c: usize = 0;
        while c < n
            invariant
                c <= n,
                n == ids_vec@.len(),
                ids_vec.deep_view() == ids,
                ids == update_ids(ups),
                ups == updates@,
                ids.no_duplicates(),
                n == ups.len(),
                first_form_error(ups) is None,
                forall|k: int| 0 <= k < c ==> has_track(self@, #[trigger] ids[k]),
                self@ == old(self)@,
            decreases n - c,
        {
            assert(ids[c as int] == ids_vec@[c as int]@);
            if !has_track_exec(&self.entries, ids_vec[c].as_str()) {
                assert(update_ids(updates@)[c as int] == ids[c as int]);
                assert(!has_track(old(self)@, update_ids(updates@)[c as int]));
                return Err(YouTubePlaybackError::TrackNotFound { id: ids_vec[c].clone() });
            }
            c = c + 1;
        }
        let ghost start = self@;
        proof {
            lemma_edits_keep_ids(start.entries, ups.take(0));
        }
        let mut t: usize = 0;
        for edit in it: edits.into_iter()
            invariant
                it.seq() == es,
                es.len() == n,
                n == ids_vec@.len(),
                n == ups.len(),
                ids_vec.deep_view() == ids,
                ids == update_ids(ups),
                it.index() <= n,
                forall|k: int| 0 <= k < n ==> normalizes(#[trigger] es[k], ups[k].1),
                forall|k: int| 0 <= k < n ==> has_track(start, #[trigger] ids[k]),
                self@ == with_entries(start, edits_applied(start.entries, ups.take(it.index() as int))),
                t == it.index(),
        {
            let ghost k = it.index();
            proof {
                lemma_edits_keep_ids(start.entries, ups.take(k as int));
            }
            assert(ups.take(k + 1).drop_last() =~= ups.take(k as int));
            assert(ids[k as int] == ids_vec@[t as int]@);
            let j = match position_of_track(&self.entries, ids_vec[t].as_str()) {
                Some(j) => j,
                None => {
                    proof {
                        let es = entry_ids(self@.entries);
                        assert(es == entry_ids(start.entries));
                        assert(es.contains(ids[k as int]));
                        let q = choose|q: int| 0 <= q < es.len() && es[q] == ids[k as int];
                        crate::metadata::lemma_first_index_found(es, ids[k as int], q);
                    }
                    return Err(YouTubePlaybackError::TrackNotFound { id: ids_vec[t].clone() });
                },
            };
            assert(normalizes(edit, ups[k as int].1));
            self.apply_edit(j, edit);
            assert(self@.entries =~= edits_applied(start.entries, ups.take(k + 1)));
            t = t + 1;
        }
        assert(ups.take(ups.len() as int) =~= ups);
        self.reconcile_queue();
        Ok(self.library_snapshot())
    }
}

/// The first invalid form of a prefix, once found, is that of the whole batch.
proof fn lemma_first_form_error_prefix(updates: Seq<(String, EditableTrackMetadata)>, k: int)
    requires
        0 <= k <= updates.len(),
        first_form_error(updates.take(k)) is Some,
    ensures
        first_form_error(updates) == first_form_error(updates.take(k)),
    decreases updates.len() - k,
{
    if k < updates.len() {
        assert(updates.take(k + 1).drop_last() =~= updates.take(k));
        lemma_first_form_error_prefix(updates, k + 1);
    } else {
        assert(updates.take(k) =~= updates);
    }
}


/// The entries whose track is not among `ids`.
pub open spec fn entries_without(entries: Seq<QueueEntryView>, ids: Seq<Seq<char>>) -> Seq<
    QueueEntryView,
> {
    entries.filter(|e: QueueEntryView| !ids.contains(e.item.id))
}

/// A track list without the tracks among `ids`.
pub open spec fn ids_without(track_ids: Seq<Seq<char>>, ids: Seq<Seq<char>>) -> Seq<Seq<char>> {
    track_ids.filter(|t: Seq<char>| !ids.contains(t))
}

/// The playlists without the tracks among `ids`.
pub open spec fn playlists_without(playlists: Seq<PlaylistView>, ids: Seq<Seq<char>>) -> Seq<
    PlaylistView,
> {
    playlists.map_values(
        |p: PlaylistView| PlaylistView { track_ids: ids_without(p.track_ids, ids), ..p },
    )
}

/// The current track is among `ids`.
pub open spec fn removes_current(v: ProviderView, ids: Seq<Seq<char>>) -> bool {
    v.snapshot.current_item matches Some(c) && ids.contains(c.id)
}

/// The state after the tracks among `ids` left the library, its playlists and the queue;
/// when the current track left, playback stops at position zero.
pub open spec fn tracks_removed(v: ProviderView, ids: Seq<Seq<char>>) -> ProviderView {
    let r = reconciled(
        with_playlists(
            with_entries(v, entries_without(v.entries, ids)),
            playlists_without(v.playlists, ids),
        ),
    );
    if removes_current(v, ids) {
        ProviderView {
            snapshot: PlaybackSnapshotView {
                status: PlaybackStatus::Paused,
                current_item: None,
                position_ms: 0,
                ..r.snapshot
            },
            ..r
        }
    } else {
        r
    }
}

fn filtered_ids(track_ids: &Vec<String>, ids: &Vec<String>) -> (res: Vec<String>)
    ensures
        res.deep_view() == ids_without(track_ids.deep_view(), ids.deep_view()),
{
    let ghost tv = track_ids.deep_view();
    let ghost pred = |t: Seq<char>| !ids.deep_view().contains(t);
    let mut res: Vec<String> = Vec::new();
    let mut i: usize = 0;
    while i < track_ids.len()
        invariant
            i <= track_ids@.len(),
            tv == track_ids.deep_view(),
            pred == (|t: Seq<char>| !ids.deep_view().contains(t)),
            res.deep_view() == tv.take(i as int).filter(pred),
        decreases track_ids@.len() - i,
    {
        assert(tv.take(i + 1).drop_last() =~= tv.take(i as int));
        assert(tv[i as int] == track_ids@[i as int]@);
        reveal_with_fuel(Seq::filter, 1);
        if !ids_have(ids, &track_ids[i]) {
            let ghost before = res.deep_view();
            res.push(track_ids[i].clone());
            assert(res.deep_view() =~= before.push(tv[i as int]));
        }
        i = i + 1;
    }
    assert(tv.take(tv.len() as int) =~= tv);
    res
}

impl YouTubePlaybackProvider {
    /// Removes tracks from the library, its playlists and the queue (see
    /// `tracks_removed`). An empty request is `InvalidTrackMetadata`; a track that is not
    /// in the library is `TrackNotFound` (naming one such track). The flag says that the
    /// current track was removed, so the player must pause.
    pub fn remove_tracks(&mut self, track_ids: &Vec<String>) -> (res: Result<
        (LibrarySnapshot, bool),
        YouTubePlaybackError,
    >)
        ensures
            track_ids@.len() == 0 ==> (res matches Err(YouTubePlaybackError::InvalidTrackMetadata(e))
                && e@ == "at least one track ID is required"@ && final(self)@ == old(self)@),
            track_ids@.len() > 0 && (exists|i: int|
                0 <= i < track_ids@.len() && !has_track(old(self)@, #[trigger] track_ids@[i]@))
                ==> (res matches Err(YouTubePlaybackError::TrackNotFound { id: e })
                && track_ids.deep_view().contains(e@) && !has_track(old(self)@, e@) && final(self)@
                == old(self)@),
            track_ids@.len() > 0 && (forall|i: int|
                0 <= i < track_ids@.len() ==> has_track(old(self)@, #[trigger] track_ids@[i]@))
                ==> (res matches Ok((snap, paused)) && final(self)@ == tracks_removed(
                old(self)@,
                track_ids.deep_view(),
            ) && paused == removes_current(old(self)@, track_ids.deep_view()) && shows_library(
                final(self)@,
                snap,
            )),
    {
        if track_ids.len() == 0 {
            return Err(
                YouTubePlaybackError::InvalidTrackMetadata(
                    String::from_str("at least one track ID is required"),
                ),
            );
        }
        let ghost ids = track_ids.deep_view();
        let mut c: usize = 0;
        while c < track_ids.len()
            invariant
                c <= track_ids@.len(),
                ids == track_ids.deep_view(),
                forall|k: int| 0 <= k < c ==> has_track(self@, #[trigger] track_ids@[k]@),
                self@ == old(self)@,
            decreases track_ids@.len() - c,
        {
            if !has_track_exec(&self.entries, track_ids[c].as_str()) {
                assert(ids[c as int] == track_ids@[c as int]@);
                return Err(YouTubePlaybackError::TrackNotFound { id: track_ids[c].clone() });
            }
            c = c + 1;
        }
        let ghost v0 = self@;
        let removed_current = match &self.snapshot.current_item {
            Some(item) => ids_have(track_ids, &item.id),
            None => false,
        };
        let mut old_entries: Vec<QueueEntry> = Vec::new();
        std::mem::swap(&mut old_entries, &mut self.entries);
        let ghost oe = old_entries@;
        let ghost pred = |e: QueueEntryView| !ids.contains(e.item.id);
        for entry in it: old_entries.into_iter()
            invariant
                it.seq() == oe,
                v0.entries == entries_view(oe),
                ids == track_ids.deep_view(),
                pred == (|e: QueueEntryView| !ids.contains(e.item.id)),
                entries_view(self.entries@) == entries_view(oe).take(it.index() as int).filter(pred),
                self.playlists == old(self).playlists,
                self.snapshot == old(self).snapshot,
                self.shuffle_order == old(self).shuffle_order,
        {
            let ghost k = it.index();
            assert(entries_view(oe).take(k + 1).drop_last() =~= entries_view(oe).take(k as int));
            assert(entries_view(oe)[k as int] == entry@);
            reveal_with_fuel(Seq::filter, 1);
            if !ids_have(track_ids, &entry.item.id) {
                let ghost before = entries_view(self.entries@);
                self.entries.push(entry);
                assert(entries_view(self.entries@) =~= before.push(entry@));
            }
        }
        assert(entries_view(oe).take(oe.len() as int) =~= entries_view(oe));
        let mut old_playlists: Vec<Playlist> = Vec::new();
        std::mem::swap(&mut old_playlists, &mut self.playlists);
        let ghost op = old_playlists@;
        for playlist in it: old_playlists.into_iter()
            invariant
                it.seq() == op,
                v0.playlists == playlists_view(op),
                ids == track_ids.deep_view(),
                playlists_view(self.playlists@) == playlists_without(
                    playlists_view(op).take(it.index() as int),
                    ids,
                ),
                entries_view(self.entries@) == entries_without(v0.entries, ids),
                self.snapshot == old(self).snapshot,
                self.shuffle_order == old(self).shuffle_order,
        {
            let ghost k = it.index();
            let kept = filtered_ids(&playlist.track_ids, track_ids);
            let p = Playlist { id: playlist.id, name: playlist.name, track_ids: kept };
            let ghost before = playlists_view(self.playlists@);
            self.playlists.push(p);
            assert(playlists_view(self.playlists@) =~= before.push(p@));
            assert(playlists_without(playlists_view(op).take(k + 1), ids) =~= playlists_without(
                playlists_view(op).take(k as int),
                ids,
            ).push(p@));
        }
        assert(playlists_view(op).take(op.len() as int) =~= playlists_view(op));
        self.reconcile_queue();
        if removed_current {
            self.snapshot.status = PlaybackStatus::Paused;
            self.snapshot.current_item = None;
            self.snapshot.position_ms = 0;
        }
        Ok((self.library_snapshot(), removed_current))
    }
}


/// The first track of a list that is not in the library.
pub open spec fn first_missing(v: ProviderView, ids: Seq<Seq<char>>) -> Option<Seq<char>>
    decreases ids.len(),
{
    if ids.len() == 0 {
        None
    } else {
        match first_missing(v, ids.drop_last()) {
            Some(m) => Some(m),
            None => if has_track(v, ids.last()) {
                None
            } else {
                Some(ids.last())
            },
        }
    }
}

/// The playlists with `p` in place of the first one with its ID, or appended.
pub open spec fn upserted(playlists: Seq<PlaylistView>, p: PlaylistView) -> Seq<PlaylistView> {
    match first_index(playlist_ids(playlists), p.id) {
        Some(j) => playlists.update(j, p),
        None => playlists.push(p),
    }
}

/// The error of a playlist that cannot be saved, if any: a blank ID or name, a default
/// playlist, then the first track that is not in the library.
pub open spec fn playlist_error(v: ProviderView, p: Playlist) -> Option<YouTubePlaybackErrorKind> {
    if trim_seq(p.id@).len() == 0 {
        Some(YouTubePlaybackErrorKind::InvalidTrackMetadata(empty_field_message("playlist ID"@)))
    } else if trim_seq(p.name@).len() == 0 {
        Some(YouTubePlaybackErrorKind::InvalidTrackMetadata(empty_field_message("playlist name"@)))
    } else if is_default_id(trim_seq(p.id@)) {
        Some(YouTubePlaybackErrorKind::InvalidPlaylist("default playlists cannot be edited directly"@))
    } else {
        match first_missing(v, p.track_ids.deep_view()) {
            Some(t) => Some(
                YouTubePlaybackErrorKind::InvalidPlaylist("track "@ + t + " is not in the library"@),
            ),
            None => None,
        }
    }
}

/// The kind and message of an error, for contracts.
pub enum YouTubePlaybackErrorKind {
    InvalidTrackMetadata(Seq<char>),
    InvalidPlaylist(Seq<char>),
}

/// An error has a given kind and message.
pub open spec fn error_is(e: YouTubePlaybackError, k: YouTubePlaybackErrorKind) -> bool {
    match k {
        YouTubePlaybackErrorKind::InvalidTrackMetadata(m) => e matches YouTubePlaybackError::InvalidTrackMetadata(x) && x@ == m,
        YouTubePlaybackErrorKind::InvalidPlaylist(m) => e matches YouTubePlaybackError::InvalidPlaylist(x) && x@ == m,
    }
}

/// The playlist as saved: ID and name trimmed, each track once.
pub open spec fn saved_playlist(p: Playlist) -> PlaylistView {
    PlaylistView {
        id: trim_seq(p.id@),
        name: trim_seq(p.name@),
        track_ids: union_ids(seq![], p.track_ids.deep_view()),
    }
}

/// The default playlists among a list.
pub open spec fn default_playlists(playlists: Seq<PlaylistView>) -> Seq<PlaylistView> {
    playlists.filter(|p: PlaylistView| is_default_id(p.id))
}

/// A requested order names every user playlist exactly once.
pub open spec fn valid_order(playlists: Seq<PlaylistView>, ids: Seq<Seq<char>>) -> bool {
    &&& ids.no_duplicates()
    &&& forall|x: Seq<char>| ids.contains(x) <==> playlist_ids(user_playlists(playlists)).contains(x)
}

/// The playlists in a requested order: the default ones first, as they were, then the
/// user's in the requested order.
pub open spec fn reordered(playlists: Seq<PlaylistView>, ids: Seq<Seq<char>>) -> Seq<PlaylistView> {
    let user = user_playlists(playlists);
    default_playlists(playlists) + ids.map_values(
        |id: Seq<char>|
            match first_index(playlist_ids(user), id) {
                Some(j) => user[j],
                None => user[0],
            },
    )
}

/// The playlists without those with ID `id`.
pub open spec fn playlists_deleted(playlists: Seq<PlaylistView>, id: Seq<char>) -> Seq<PlaylistView> {
    playlists.filter(|p: PlaylistView| p.id != id)
}

fn playlist_position(playlists: &Vec<Playlist>, id: &String) -> (res: Option<usize>)
    ensures
        match res {
            Some(i) => first_index(playlist_ids(playlists_view(playlists@)), id@) == Some(i as int),
            None => first_index(playlist_ids(playlists_view(playlists@)), id@) is None,
        },
        res matches Some(i) ==> i < playlists@.len(),
{
    let ghost v = playlist_ids(playlists_view(playlists@));
    let mut i: usize = 0;
    while i < playlists.len()
        invariant
            i <= playlists.len(),
            v == playlist_ids(playlists_view(playlists@)),
            forall|j: int| 0 <= j < i ==> v[j] != id@,
        decreases playlists.len() - i,
    {
        assert(v[i as int] == playlists@[i as int].id@);
        if playlists[i].id == *id {
            proof {
                crate::metadata::lemma_first_index_found(v, id@, i as int);
            }
            return Some(i);
        }
        i = i + 1;
    }
    proof {
        if first_index(v, id@) is Some {
            let j = first_index(v, id@)->0;
            assert(v[j] == id@);
        }
    }
    None
}

impl YouTubePlaybackProvider {
    /// Saves a user playlist (see `saved_playlist`), replacing the one with its ID or
    /// adding it. Refused as `playlist_error` says.
    pub fn upsert_playlist(&mut self, playlist: Playlist) -> (res: Result<
        LibrarySnapshot,
        YouTubePlaybackError,
    >)
        ensures
            playlist_error(old(self)@, playlist) matches Some(k) ==> (res matches Err(e) && error_is(
                e,
                k,
            ) && final(self)@ == old(self)@),
            playlist_error(old(self)@, playlist) is None ==> (res matches Ok(snap) && final(self)@
                == with_playlists(old(self)@, upserted(old(self)@.playlists, saved_playlist(playlist)))
                && shows_library(final(self)@, snap)),
    {
        proof {
            reveal_strlit("playlist ID");
            reveal_strlit("playlist name");
        }
        let ghost p0 = playlist;
        let id = required_metadata_value(playlist.id, "playlist ID")?;
        let name = required_metadata_value(playlist.name, "playlist name")?;
        if is_default_playlist(id.as_str()) {
            return Err(
                YouTubePlaybackError::InvalidPlaylist(
                    String::from_str("default playlists cannot be edited directly"),
                ),
            );
        }
        let ghost tv = p0.track_ids.deep_view();
        let mut track_ids: Vec<String> = Vec::new();
        let mut i: usize = 0;
        while i < playlist.track_ids.len()
            invariant
                i <= playlist.track_ids@.len(),
                tv == playlist.track_ids.deep_view(),
                first_missing(self@, tv.take(i as int)) is None,
                track_ids.deep_view() == union_ids(seq![], tv.take(i as int)),
                self@ == old(self)@,
                p0.track_ids.deep_view() == tv,
                p0 == playlist,
                trim_seq(p0.id@).len() > 0,
                trim_seq(p0.name@).len() > 0,
                !is_default_id(trim_seq(p0.id@)),
            decreases playlist.track_ids@.len() - i,
        {
            assert(tv.take(i + 1).drop_last() =~= tv.take(i as int));
            assert(tv[i as int] == playlist.track_ids@[i as int]@);
            let track_id = &playlist.track_ids[i];
            if !has_track_exec(&self.entries, track_id.as_str()) {
                proof {
                    assert(tv.take(i + 1).last() == tv[i as int]);
                    assert(!has_track(self@, tv[i as int]));
                    assert(first_missing(self@, tv.take(i + 1)) == Some(tv[i as int]));
                    lemma_first_missing_prefix(self@, tv, i + 1);
                }
                let mut message = String::from_str("track ");
                message.append(track_id.as_str());
                message.append(" is not in the library");
                return Err(YouTubePlaybackError::InvalidPlaylist(message));
            }
            if !ids_have(&track_ids, track_id) {
                let ghost before = track_ids.deep_view();
                track_ids.push(track_id.clone());
                assert(track_ids.deep_view() =~= before.push(tv[i as int]));
            }
            i = i + 1;
        }
        assert(tv.take(tv.len() as int) =~= tv);
        let saved = Playlist { id, name, track_ids };
        assert(saved@ == saved_playlist(p0));
        let ghost pv = self@.playlists;
        match playlist_position(&self.playlists, &saved.id) {
            Some(j) => {
                self.playlists.set(j, saved);
                assert(self@.playlists =~= upserted(pv, saved_playlist(p0)));
            },
            None => {
                self.playlists.push(saved);
                assert(self@.playlists =~= upserted(pv, saved_playlist(p0)));
            },
        }
        Ok(self.library_snapshot())
    }

    /// Deletes a user playlist. Default playlists and missing ones are `InvalidPlaylist`.
    pub fn delete_playlist(&mut self, id: &str) -> (res: Result<LibrarySnapshot, YouTubePlaybackError>)
        ensures
            is_default_id(id@) ==> (res matches Err(YouTubePlaybackError::InvalidPlaylist(e)) && e@
                == "default playlists cannot be deleted"@ && final(self)@ == old(self)@),
            !is_default_id(id@) && !playlist_ids(old(self)@.playlists).contains(id@) ==> (res matches Err(
                YouTubePlaybackError::InvalidPlaylist(e),
            ) && e@ == "playlist "@ + id@ + " does not exist"@ && final(self)@ == old(self)@),
            !is_default_id(id@) && playlist_ids(old(self)@.playlists).contains(id@) ==> (res matches Ok(
                snap,
            ) && final(self)@ == with_playlists(
                old(self)@,
                playlists_deleted(old(self)@.playlists, id@),
            ) && shows_library(final(self)@, snap)),
    {
        if is_default_playlist(id) {
            return Err(
                YouTubePlaybackError::InvalidPlaylist(
                    String::from_str("default playlists cannot be deleted"),
                ),
            );
        }
        let ghost pv = self@.playlists;
        let ghost pred = |p: PlaylistView| p.id != id@;
        let mut kept: Vec<Playlist> = Vec::new();
        let mut found = false;
        let mut i: usize = 0;
        while i < self.playlists.len()
            invariant
                i <= self.playlists@.len(),
                pv == playlists_view(self.playlists@),
                pred == (|p: PlaylistView| p.id != id@),
                playlists_view(kept@) == pv.take(i as int).filter(pred),
                found == playlist_ids(pv.take(i as int)).contains(id@),
                self@ == old(self)@,
            decreases self.playlists@.len() - i,
        {
            assert(pv.take(i + 1).drop_last() =~= pv.take(i as int));
            assert(pv[i as int] == self.playlists@[i as int]@);
            reveal_with_fuel(Seq::filter, 1);
            assert(playlist_ids(pv.take(i + 1)) =~= playlist_ids(pv.take(i as int)).push(pv[i as int].id));
            let hit = crate::text::str_equal(self.playlists[i].id.as_str(), id);
            if hit {
                found = true;
            } else {
                let ghost before = playlists_view(kept@);
                kept.push(self.playlists[i].duplicate());
                assert(playlists_view(kept@) =~= before.push(pv[i as int]));
            }
            proof {
                let a = playlist_ids(pv.take(i as int));
                let b = a.push(pv[i as int].id);
                assert(b =~= playlist_ids(pv.take(i + 1)));
                if a.contains(id@) {
                    let q = choose|q: int| 0 <= q < a.len() && a[q] == id@;
                    assert(b[q] == id@);
                }
                if b.contains(id@) {
                    let q = choose|q: int| 0 <= q < b.len() && b[q] == id@;
                    if q < a.len() {
                        assert(a[q] == id@);
                    }
                }
                if hit {
                    assert(b[i as int] == id@);
                }
            }
            i = i + 1;
        }
        assert(pv.take(pv.len() as int) =~= pv);
        if !found {
            let mut message = String::from_str("playlist ");
            message.append(id);
            message.append(" does not exist");
            return Err(YouTubePlaybackError::InvalidPlaylist(message));
        }
        self.playlists = kept;
        Ok(self.library_snapshot())
    }
}

/// The first missing track of a prefix, once found, is that of the whole list.
proof fn lemma_first_missing_prefix(v: ProviderView, ids: Seq<Seq<char>>, k: int)
    requires
        0 <= k <= ids.len(),
        first_missing(v, ids.take(k)) is Some,
    ensures
        first_missing(v, ids) == first_missing(v, ids.take(k)),
    decreases ids.len() - k,
{
    if k < ids.len() {
        assert(ids.take(k + 1).drop_last() =~= ids.take(k));
        lemma_first_missing_prefix(v, ids, k + 1);
    } else {
        assert(ids.take(k) =~= ids);
    }
}


impl YouTubePlaybackProvider {
    /// The user playlists, in order.
    fn user_playlist_list(&self) -> (res: Vec<Playlist>)
        ensures
            playlists_view(res@) == user_playlists(self@.playlists),
    {
        let ghost pv = self@.playlists;
        let ghost pred = |p: PlaylistView| !is_default_id(p.id);
        let mut res: Vec<Playlist> = Vec::new();
        let mut i: usize = 0;
        while i < self.playlists.len()
            invariant
                i <= self.playlists@.len(),
                pv == playlists_view(self.playlists@),
                pred == (|p: PlaylistView| !is_default_id(p.id)),
                playlists_view(res@) == pv.take(i as int).filter(pred),
            decreases self.playlists@.len() - i,
        {
            assert(pv.take(i + 1).drop_last() =~= pv.take(i as int));
            assert(pv[i as int] == self.playlists@[i as int]@);
            reveal_with_fuel(Seq::filter, 1);
            if !is_default_playlist(self.playlists[i].id.as_str()) {
                let ghost before = playlists_view(res@);
                res.push(self.playlists[i].duplicate());
                assert(playlists_view(res@) =~= before.push(pv[i as int]));
            }
            i = i + 1;
        }
        assert(pv.take(pv.len() as int) =~= pv);
        res
    }

    /// Puts the user playlists in the requested order, after the default ones. The order
    /// must name every user playlist exactly once (`InvalidPlaylist` otherwise).
    pub fn reorder_playlists(&mut self, playlist_ids_requested: &Vec<String>) -> (res: Result<
        LibrarySnapshot,
        YouTubePlaybackError,
    >)
        ensures
            !valid_order(old(self)@.playlists, playlist_ids_requested.deep_view()) ==> (res matches Err(
                YouTubePlaybackError::InvalidPlaylist(e),
            ) && e@ == "playlist order must contain every user playlist exactly once"@
                && final(self)@ == old(self)@),
            valid_order(old(self)@.playlists, playlist_ids_requested.deep_view()) ==> (res matches Ok(
                snap,
            ) && final(self)@ == with_playlists(
                old(self)@,
                reordered(old(self)@.playlists, playlist_ids_requested.deep_view()),
            ) && shows_library(final(self)@, snap)),
    {
        let ghost ids = playlist_ids_requested.deep_view();
        let ghost pv = self@.playlists;
        let user = self.user_playlist_list();
        let ghost uv = playlists_view(user@);
        let ghost uids = playlist_ids(uv);
        let n = playlist_ids_requested.len();
        let mut valid = true;
        let mut a: usize = 0;
        while a < n && valid
            invariant
                a <= n,
                n == ids.len(),
                ids == playlist_ids_requested.deep_view(),
                valid ==> forall|x: int, y: int| 0 <= x < a && x < y < n ==> ids[x] != ids[y],
                !valid ==> !ids.no_duplicates(),
            decreases n - a,
        {
            let mut b: usize = a + 1;
            while b < n && valid
                invariant
                    a < n,
                    a + 1 <= b <= n,
                    n == ids.len(),
                    ids == playlist_ids_requested.deep_view(),
                    valid ==> forall|x: int, y: int| 0 <= x < a && x < y < n ==> ids[x] != ids[y],
                    valid ==> forall|y: int| a < y < b ==> ids[a as int] != ids[y],
                    !valid ==> !ids.no_duplicates(),
                decreases n - b,
            {
                assert(ids[a as int] == playlist_ids_requested@[a as int]@);
                assert(ids[b as int] == playlist_ids_requested@[b as int]@);
                if playlist_ids_requested[a] == playlist_ids_requested[b] {
                    valid = false;
                }
                b = b + 1;
            }
            a = a + 1;
        }
        if valid {
            assert(ids.no_duplicates()) by {
                assert forall|x: int, y: int|
                    0 <= x < ids.len() && 0 <= y < ids.len() && x != y implies ids[x] != ids[y] by {
                    if x > y {
                        assert(ids[y] != ids[x]);
                    }
                }
            }
        }
        let mut c: usize = 0;
        while c < n && valid
            invariant
                c <= n,
                n == ids.len(),
                ids == playlist_ids_requested.deep_view(),
                uids == playlist_ids(playlists_view(user@)),
                uv == playlists_view(user@),
                uv == user_playlists(pv),
                uids == playlist_ids(uv),
                valid ==> ids.no_duplicates(),
                valid ==> forall|k: int| 0 <= k < c ==> uids.contains(#[trigger] ids[k]),
                !valid ==> !valid_order(pv, ids),
            decreases n - c,
        {
            match playlist_position(&user, &playlist_ids_requested[c]) {
                Some(j) => {
                    assert(uids[j as int] == ids[c as int]);
                },
                None => {
                    proof {
                        assert(ids[c as int] == playlist_ids_requested@[c as int]@);
                        if uids.contains(ids[c as int]) {
                            let q = choose|q: int| 0 <= q < uids.len() && uids[q] == ids[c as int];
                            crate::metadata::lemma_first_index_found(uids, ids[c as int], q);
                        }
                        assert(ids.contains(ids[c as int]));
                    }
                    valid = false;
                },
            }
            c = c + 1;
        }
        let mut d: usize = 0;
        while d < user.len() && valid
            invariant
                d <= user@.len(),
                n == ids.len(),
                ids == playlist_ids_requested.deep_view(),
                uids == playlist_ids(playlists_view(user@)),
                uv == playlists_view(user@),
                uv == user_playlists(pv),
                uids == playlist_ids(uv),
                valid ==> ids.no_duplicates(),
                valid ==> forall|k: int| 0 <= k < n ==> uids.contains(#[trigger] ids[k]),
                valid ==> forall|k: int| 0 <= k < d ==> ids.contains(#[trigger] uids[k]),
                !valid ==> !valid_order(pv, ids),
            decreases user@.len() - d,
        {
            assert(uids[d as int] == user@[d as int].id@);
            if !ids_have(playlist_ids_requested, &user[d].id) {
                assert(uids.contains(uids[d as int]));
                valid = false;
            }
            d = d + 1;
        }
        if valid {
            assert forall|x: Seq<char>| ids.contains(x) <==> uids.contains(x) by {
                if ids.contains(x) {
                    let q = choose|q: int| 0 <= q < ids.len() && ids[q] == x;
                    assert(uids.contains(ids[q]));
                }
                if uids.contains(x) {
                    let q = choose|q: int| 0 <= q < uids.len() && uids[q] == x;
                    assert(ids.contains(uids[q]));
                }
            }
        }
        if !valid {
            return Err(
                YouTubePlaybackError::InvalidPlaylist(
                    String::from_str("playlist order must contain every user playlist exactly once"),
                ),
            );
        }
        let ghost dpred = |p: PlaylistView| is_default_id(p.id);
        let mut result: Vec<Playlist> = Vec::new();
        let mut i: usize = 0;
        while i < self.playlists.len()
            invariant
                i <= self.playlists@.len(),
                pv == playlists_view(self.playlists@),
                dpred == (|p: PlaylistView| is_default_id(p.id)),
                playlists_view(result@) == pv.take(i as int).filter(dpred),
            decreases self.playlists@.len() - i,
        {
            assert(pv.take(i + 1).drop_last() =~= pv.take(i as int));
            assert(pv[i as int] == self.playlists@[i as int]@);
            reveal_with_fuel(Seq::filter, 1);
            if is_default_playlist(self.playlists[i].id.as_str()) {
                let ghost before = playlists_view(result@);
                result.push(self.playlists[i].duplicate());
                assert(playlists_view(result@) =~= before.push(pv[i as int]));
            }
            i = i + 1;
        }
        assert(pv.take(pv.len() as int) =~= pv);
        let ghost head = playlists_view(result@);
        let ghost pick = |id: Seq<char>|
            match first_index(playlist_ids(uv), id) {
                Some(j) => uv[j],
                None => uv[0],
            };
        let mut k: usize = 0;
        while k < n
            invariant
                k <= n,
                n == ids.len(),
                ids == playlist_ids_requested.deep_view(),
                uv == playlists_view(user@),
                uv == user_playlists(pv),
                uids == playlist_ids(uv),
                forall|t: int| 0 <= t < n ==> uids.contains(#[trigger] ids[t]),
                pick == (|id: Seq<char>|
                    match first_index(playlist_ids(uv), id) {
                        Some(j) => uv[j],
                        None => uv[0],
                    }),
                playlists_view(result@) == head + ids.take(k as int).map_values(pick),
            decreases n - k,
        {
            assert(ids[k as int] == playlist_ids_requested@[k as int]@);
            let j = match playlist_position(&user, &playlist_ids_requested[k]) {
                Some(j) => j,
                None => {
                    proof {
                        let q = choose|q: int| 0 <= q < uids.len() && uids[q] == ids[k as int];
                        crate::metadata::lemma_first_index_found(uids, ids[k as int], q);
                    }
                    return Err(
                        YouTubePlaybackError::InvalidPlaylist(
                            String::from_str(
                                "playlist order must contain every user playlist exactly once",
                            ),
                        ),
                    );
                },
            };
            let ghost before = playlists_view(result@);
            result.push(user[j].duplicate());
            assert(playlists_view(result@) =~= before.push(uv[j as int]));
            assert(ids.take(k + 1).map_values(pick) =~= ids.take(k as int).map_values(pick).push(
                pick(ids[k as int]),
            ));
            k = k + 1;
        }
        assert(ids.take(n as int) =~= ids);
        self.playlists = result;
        assert(self@.playlists =~= reordered(pv, ids));
        Ok(self.library_snapshot())
    }
}


/// The queue position of the current track.
pub open spec fn current_position(s: PlaybackSnapshotView) -> Option<int> {
    match s.current_item {
        Some(c) => first_index(item_ids(s.queue), c.id),
        None => None,
    }
}

/// The shuffle-order position of the current track.
pub open spec fn current_order_position(v: ProviderView) -> Option<int> {
    match v.snapshot.current_item {
        Some(c) => first_index(v.shuffle_order, c.id),
        None => None,
    }
}

/// What the player does next.
#[derive(Debug, PartialEq, Eq, Structural)]
pub enum Step {
    /// Nothing changes.
    Stay,
    /// The queue entry at this position becomes current.
    Select(usize),
    /// The queue is done: it is cleared and playback stops.
    Finish,
}

/// The step after the track at queue position `current` (see `next_step`); `Err` names a
/// shuffled track that is no longer queued.
pub open spec fn advance_step(v: ProviderView, current: int) -> Result<Step, Seq<char>> {
    let s = v.snapshot;
    let len = s.queue.len();
    if len == 0 {
        Ok(Step::Stay)
    } else if s.repeat_mode == RepeatMode::One {
        Ok(Step::Select(current as usize))
    } else if s.shuffle_enabled {
        match current_order_position(v) {
            None => Ok(Step::Finish),
            Some(i) => {
                let next = if i + 1 < v.shuffle_order.len() {
                    Some(i + 1)
                } else if s.repeat_mode == RepeatMode::All {
                    Some(0)
                } else {
                    None
                };
                match next {
                    None => Ok(Step::Finish),
                    Some(n) => match first_index(item_ids(s.queue), v.shuffle_order[n]) {
                        Some(q) => Ok(Step::Select(q as usize)),
                        None => Err(v.shuffle_order[n]),
                    },
                }
            },
        }
    } else if current + 1 < len {
        Ok(Step::Select((current + 1) as usize))
    } else if s.repeat_mode == RepeatMode::All {
        Ok(Step::Select(0))
    } else {
        Ok(Step::Finish)
    }
}

/// The step back from the current track: the previous one in the shuffle order or the
/// queue, wrapping at the start; `Stay` without a current track.
pub open spec fn previous_step(v: ProviderView) -> Result<Step, Seq<char>> {
    let s = v.snapshot;
    match current_position(s) {
        None => Ok(Step::Stay),
        Some(c) => if s.shuffle_enabled {
            match current_order_position(v) {
                None => Ok(Step::Stay),
                Some(i) => {
                    let p = if i == 0 {
                        v.shuffle_order.len() - 1
                    } else {
                        i - 1
                    };
                    match first_index(item_ids(s.queue), v.shuffle_order[p]) {
                        Some(q) => Ok(Step::Select(q as usize)),
                        None => Err(v.shuffle_order[p]),
                    }
                }
            }
        } else {
            Ok(
                Step::Select(
                    (if c == 0 {
                        s.queue.len() - 1
                    } else {
                        c - 1
                    }) as usize,
                ),
            )
        },
    }
}

/// The state once the queue has finished: empty, nothing current, paused at zero.
pub open spec fn finished(v: ProviderView) -> ProviderView {
    order_reconciled(
        ProviderView {
            snapshot: PlaybackSnapshotView {
                queue: seq![],
                current_item: None,
                status: PlaybackStatus::Paused,
                position_ms: 0,
                ..v.snapshot
            },
            ..v
        },
    )
}

/// A new shuffle order: `current` first where given, then the other queued tracks
/// shuffled with `seed`.
pub open spec fn reset_order(queue: Seq<MediaItemView>, current: Option<Seq<char>>, seed: u64) -> Seq<
    Seq<char>,
> {
    let rest = shuffled(upcoming_ids(queue, current), 0, seed);
    match current {
        Some(c) => seq![c] + rest,
        None => rest,
    }
}

/// The state with another snapshot.
pub open spec fn with_snapshot(v: ProviderView, s: PlaybackSnapshotView) -> ProviderView {
    ProviderView { snapshot: s, ..v }
}

/// The state with another shuffle order.
pub open spec fn with_order(v: ProviderView, order: Seq<Seq<char>>) -> ProviderView {
    ProviderView { shuffle_order: order, ..v }
}

/// The snapshot with another queue.
pub open spec fn with_queue(s: PlaybackSnapshotView, queue: Seq<MediaItemView>) -> PlaybackSnapshotView {
    PlaybackSnapshotView { queue, ..s }
}

fn position_in_order(order: &Vec<String>, id: &String) -> (res: Option<usize>)
    ensures
        match res {
            Some(i) => first_index(order.deep_view(), id@) == Some(i as int),
            None => first_index(order.deep_view(), id@) is None,
        },
        res matches Some(i) ==> i < order@.len(),
{
    position_in(order, id.as_str())
}

impl YouTubePlaybackProvider {
    /// The queue position of the current track.
    pub fn current_index(&self) -> (res: Option<usize>)
        ensures
            match res {
                Some(i) => current_position(self@.snapshot) == Some(i as int) && i
                    < self@.snapshot.queue.len(),
                None => current_position(self@.snapshot) is None,
            },
    {
        match &self.snapshot.current_item {
            Some(c) => crate::playback::position_of_item(&self.snapshot.queue, &c.id),
            None => None,
        }
    }

    /// Decides what follows the track at queue position `current_index` when it ends or
    /// the user skips (see `advance_step`). With shuffle on, the shuffle order is first
    /// brought in step with the queue.
    pub fn next_step(&mut self, current_index: usize) -> (res: Result<Step, YouTubePlaybackError>)
        ensures
            old(self)@.snapshot.queue.len() > 0 && old(self)@.snapshot.repeat_mode != RepeatMode::One
                && old(self)@.snapshot.shuffle_enabled ==> final(self)@ == order_reconciled(
                old(self)@,
            ),
            !(old(self)@.snapshot.queue.len() > 0 && old(self)@.snapshot.repeat_mode
                != RepeatMode::One && old(self)@.snapshot.shuffle_enabled) ==> final(self)@ == old(
                self,
            )@,
            match advance_step(final(self)@, current_index as int) {
                Ok(step) => res == Ok::<Step, YouTubePlaybackError>(step),
                Err(id) => res matches Err(YouTubePlaybackError::TrackNotFound { id: e }) && e@
                    == id,
            },
    {
        let len = self.snapshot.queue.len();
        if len == 0 {
            return Ok(Step::Stay);
        }
        if self.snapshot.repeat_mode == RepeatMode::One {
            return Ok(Step::Select(current_index));
        }
        if self.snapshot.shuffle_enabled {
            self.reconcile_shuffle_order();
            let i = match &self.snapshot.current_item {
                Some(c) => match position_in_order(&self.shuffle_order, &c.id) {
                    Some(i) => i,
                    None => return Ok(Step::Finish),
                },
                None => return Ok(Step::Finish),
            };
            let n = if i < self.shuffle_order.len() - 1 {
                i + 1
            } else if self.snapshot.repeat_mode == RepeatMode::All {
                0
            } else {
                return Ok(Step::Finish);
            };
            assert(self.shuffle_order@[n as int]@ == self@.shuffle_order[n as int]);
            return match crate::playback::position_of_item(
                &self.snapshot.queue,
                &self.shuffle_order[n],
            ) {
                Some(q) => Ok(Step::Select(q)),
                None => Err(YouTubePlaybackError::TrackNotFound { id: self.shuffle_order[n].clone() }),
            };
        }
        if current_index < len - 1 {
            return Ok(Step::Select(current_index + 1));
        }
        if self.snapshot.repeat_mode == RepeatMode::All {
            return Ok(Step::Select(0));
        }
        Ok(Step::Finish)
    }

    /// Decides which track the previous-track command selects (see `previous_step`).
    pub fn previous_step(&self) -> (res: Result<Step, YouTubePlaybackError>)
        ensures
            match previous_step(self@) {
                Ok(step) => res == Ok::<Step, YouTubePlaybackError>(step),
                Err(id) => res matches Err(YouTubePlaybackError::TrackNotFound { id: e }) && e@
                    == id,
            },
    {
        let c = match self.current_index() {
            Some(c) => c,
            None => return Ok(Step::Stay),
        };
        if self.snapshot.shuffle_enabled {
            let i = match &self.snapshot.current_item {
                Some(cur) => match position_in_order(&self.shuffle_order, &cur.id) {
                    Some(i) => i,
                    None => return Ok(Step::Stay),
                },
                None => return Ok(Step::Stay),
            };
            let p = if i == 0 {
                self.shuffle_order.len() - 1
            } else {
                i - 1
            };
            assert(self.shuffle_order@[p as int]@ == self@.shuffle_order[p as int]);
            return match crate::playback::position_of_item(
                &self.snapshot.queue,
                &self.shuffle_order[p],
            ) {
                Some(q) => Ok(Step::Select(q)),
                None => Err(YouTubePlaybackError::TrackNotFound { id: self.shuffle_order[p].clone() }),
            };
        }
        let p = if c == 0 {
            self.snapshot.queue.len() - 1
        } else {
            c - 1
        };
        Ok(Step::Select(p))
    }

    /// Ends the queue: it is cleared, nothing is current and playback stops at zero.
    pub fn finish_queue(&mut self)
        ensures
            final(self)@ == finished(old(self)@),
    {
        self.snapshot.queue = Vec::new();
        self.snapshot.current_item = None;
        self.snapshot.status = PlaybackStatus::Paused;
        self.snapshot.position_ms = 0;
        assert(items_view(self.snapshot.queue@) =~= Seq::<MediaItemView>::empty());
        self.reconcile_shuffle_order();
    }

    /// Draws a new shuffle order (see `reset_order`).
    pub fn reset_shuffle_order(&mut self, current_id: Option<&str>, seed: u64)
        ensures
            final(self)@ == with_order(
                old(self)@,
                reset_order(old(self)@.snapshot.queue, crate::metadata::opt_str_view(current_id), seed),
            ),
    {
        let ghost queue = item_ids(self@.snapshot.queue);
        let ghost cur = crate::metadata::opt_str_view(current_id);
        let ghost pred = |id: Seq<char>| cur != Some(id);
        let mut ids: Vec<String> = Vec::new();
        let mut i: usize = 0;
        while i < self.snapshot.queue.len()
            invariant
                i <= self.snapshot.queue@.len(),
                queue == item_ids(items_view(self.snapshot.queue@)),
                cur == crate::metadata::opt_str_view(current_id),
                pred == (|id: Seq<char>| cur != Some(id)),
                ids.deep_view() == queue.take(i as int).filter(pred),
            decreases self.snapshot.queue@.len() - i,
        {
            let keep = match current_id {
                Some(c) => !crate::text::str_equal(self.snapshot.queue[i].id.as_str(), c),
                None => true,
            };
            assert(queue[i as int] == self.snapshot.queue@[i as int].id@);
            assert(queue.take(i + 1).drop_last() =~= queue.take(i as int));
            assert(keep == pred(queue[i as int]));
            reveal_with_fuel(Seq::filter, 1);
            if keep {
                let ghost before = ids.deep_view();
                ids.push(self.snapshot.queue[i].id.clone());
                assert(ids.deep_view() =~= before.push(queue[i as int]));
            }
            i = i + 1;
        }
        assert(queue.take(queue.len() as int) =~= queue);
        let ghost unshuffled = ids@;
        assert(ids.deep_view() =~= string_views(unshuffled));
        shuffle_upcoming(&mut ids, 0, seed);
        proof {
            crate::playback::lemma_shuffled_views(unshuffled, 0, seed);
            assert(ids.deep_view() =~= string_views(ids@));
        }
        match current_id {
            Some(c) => {
                let ghost rest = ids.deep_view();
                ids.insert(0, String::from_str(c));
                assert(ids.deep_view() =~= seq![c@] + rest);
            },
            None => {},
        }
        self.shuffle_order = ids;
    }
}


/// A queue without the entries of a track.
pub open spec fn queue_without(queue: Seq<MediaItemView>, id: Seq<char>) -> Seq<MediaItemView> {
    queue.filter(|q: MediaItemView| q.id != id)
}

/// The tracks of a list of IDs, as the library has them; `Err` names the first ID that is
/// not in the library.
pub open spec fn items_for(entries: Seq<QueueEntryView>, ids: Seq<Seq<char>>) -> Result<
    Seq<MediaItemView>,
    Seq<char>,
>
    decreases ids.len(),
{
    if ids.len() == 0 {
        Ok(seq![])
    } else {
        match items_for(entries, ids.drop_last()) {
            Err(m) => Err(m),
            Ok(prev) => match library_item_of(entries, ids.last()) {
                Some(item) => Ok(prev.push(item)),
                None => Err(ids.last()),
            },
        }
    }
}

/// The snapshot with the queue replaced: nothing current, paused at zero.
pub open spec fn queue_replaced(s: PlaybackSnapshotView, items: Seq<MediaItemView>) -> PlaybackSnapshotView {
    PlaybackSnapshotView {
        queue: items,
        current_item: None,
        position_ms: 0,
        status: PlaybackStatus::Paused,
        ..s
    }
}

/// The snapshot with a track queued right after the current one (first when nothing is
/// current), its earlier entries dropped.
pub open spec fn queued_next(s: PlaybackSnapshotView, id: Seq<char>, item: MediaItemView) -> PlaybackSnapshotView {
    let rest = with_queue(s, queue_without(s.queue, id));
    let at = match current_position(rest) {
        Some(c) => c + 1,
        None => 0,
    };
    with_queue(rest, rest.queue.insert(at, item))
}

/// The library's copy of a track, as a result.
fn library_item(entries: &Vec<QueueEntry>, id: &str) -> (res: Result<MediaItem, YouTubePlaybackError>)
    ensures
        match library_item_of(entries_view(entries@), id@) {
            Some(item) => res matches Ok(i) && i@ == item,
            None => res matches Err(YouTubePlaybackError::TrackNotFound { id: e }) && e@ == id@,
        },
{
    match position_of_track(entries, id) {
        Some(j) => Ok(entries[j].item.duplicate()),
        None => Err(YouTubePlaybackError::TrackNotFound { id: String::from_str(id) }),
    }
}

impl YouTubePlaybackProvider {
    /// Drops the entries of a track from the queue.
    fn drop_from_queue(&mut self, id: &str)
        ensures
            final(self)@ == with_snapshot(
                old(self)@,
                with_queue(old(self)@.snapshot, queue_without(old(self)@.snapshot.queue, id@)),
            ),
    {
        let ghost qv = self@.snapshot.queue;
        let ghost pred = |q: MediaItemView| q.id != id@;
        let mut old_queue: Vec<MediaItem> = Vec::new();
        std::mem::swap(&mut old_queue, &mut self.snapshot.queue);
        let ghost oq = old_queue@;
        for item in it: old_queue.into_iter()
            invariant
                it.seq() == oq,
                qv == items_view(oq),
                pred == (|q: MediaItemView| q.id != id@),
                items_view(self.snapshot.queue@) == qv.take(it.index() as int).filter(pred),
                self.entries == old(self).entries,
                self.playlists == old(self).playlists,
                self.shuffle_order == old(self).shuffle_order,
                self.snapshot.status == old(self).snapshot.status,
                self.snapshot.current_item == old(self).snapshot.current_item,
                self.snapshot.position_ms == old(self).snapshot.position_ms,
                self.snapshot.volume_percent == old(self).snapshot.volume_percent,
                self.snapshot.shuffle_enabled == old(self).snapshot.shuffle_enabled,
                self.snapshot.repeat_mode == old(self).snapshot.repeat_mode,
                self.snapshot.playback_order == old(self).snapshot.playback_order,
        {
            let ghost k = it.index();
            assert(qv.take(k + 1).drop_last() =~= qv.take(k as int));
            assert(qv[k as int] == item@);
            reveal_with_fuel(Seq::filter, 1);
            if !crate::text::str_equal(item.id.as_str(), id) {
                let ghost before = items_view(self.snapshot.queue@);
                self.snapshot.queue.push(item);
                assert(items_view(self.snapshot.queue@) =~= before.push(item@));
            }
        }
        assert(qv.take(qv.len() as int) =~= qv);
    }

    /// Moves a queue entry to another position. Positions outside the queue are
    /// `QueueIndexOutOfBounds` (`from` first).
    pub fn move_queue_item(&mut self, from: usize, to: usize) -> (res: Result<(), YouTubePlaybackError>)
        ensures
            from >= old(self)@.snapshot.queue.len() ==> (res matches Err(
                YouTubePlaybackError::QueueIndexOutOfBounds { index },
            ) && index == from && final(self)@ == old(self)@),
            from < old(self)@.snapshot.queue.len() && to >= old(self)@.snapshot.queue.len() ==> (res matches Err(
                YouTubePlaybackError::QueueIndexOutOfBounds { index },
            ) && index == to && final(self)@ == old(self)@),
            from < old(self)@.snapshot.queue.len() && to < old(self)@.snapshot.queue.len() ==> (res is Ok
                && final(self)@ == order_reconciled(
                with_snapshot(
                    old(self)@,
                    with_queue(
                        old(self)@.snapshot,
                        old(self)@.snapshot.queue.remove(from as int).insert(
                            to as int,
                            old(self)@.snapshot.queue[from as int],
                        ),
                    ),
                ),
            )),
    {
        if from >= self.snapshot.queue.len() {
            return Err(YouTubePlaybackError::QueueIndexOutOfBounds { index: from });
        }
        if to >= self.snapshot.queue.len() {
            return Err(YouTubePlaybackError::QueueIndexOutOfBounds { index: to });
        }
        let ghost before = self.snapshot.queue@;
        let item = self.snapshot.queue.remove(from);
        self.snapshot.queue.insert(to, item);
        assert(items_view(self.snapshot.queue@) =~= items_view(before).remove(from as int).insert(
            to as int,
            items_view(before)[from as int],
        ));
        self.reconcile_shuffle_order();
        Ok(())
    }

    /// Removes an upcoming queue entry. A position outside the queue is
    /// `QueueIndexOutOfBounds`; the current track's entry is `CurrentQueueItem`.
    pub fn remove_queue_item(&mut self, index: usize) -> (res: Result<(), YouTubePlaybackError>)
        ensures
            index >= old(self)@.snapshot.queue.len() ==> (res matches Err(
                YouTubePlaybackError::QueueIndexOutOfBounds { index: i },
            ) && i == index && final(self)@ == old(self)@),
            index < old(self)@.snapshot.queue.len() && current_position(old(self)@.snapshot) == Some(
                index as int,
            ) ==> (res matches Err(YouTubePlaybackError::CurrentQueueItem) && final(self)@ == old(
                self,
            )@),
            index < old(self)@.snapshot.queue.len() && current_position(old(self)@.snapshot) != Some(
                index as int,
            ) ==> (res is Ok && final(self)@ == order_reconciled(
                with_snapshot(
                    old(self)@,
                    with_queue(old(self)@.snapshot, old(self)@.snapshot.queue.remove(index as int)),
                ),
            )),
    {
        if index >= self.snapshot.queue.len() {
            return Err(YouTubePlaybackError::QueueIndexOutOfBounds { index });
        }
        match self.current_index() {
            Some(c) => {
                if c == index {
                    return Err(YouTubePlaybackError::CurrentQueueItem);
                }
            },
            None => {},
        }
        let ghost before = self.snapshot.queue@;
        self.snapshot.queue.remove(index);
        assert(items_view(self.snapshot.queue@) =~= items_view(before).remove(index as int));
        self.reconcile_shuffle_order();
        Ok(())
    }

    /// Replaces the queue with library tracks; nothing is current and playback is paused
    /// at zero. A track that is not in the library is `TrackNotFound` (the first one).
    pub fn replace_queue(&mut self, track_ids: &Vec<String>) -> (res: Result<(), YouTubePlaybackError>)
        ensures
            match items_for(old(self)@.entries, track_ids.deep_view()) {
                Err(m) => res matches Err(YouTubePlaybackError::TrackNotFound { id: e }) && e@ == m
                    && final(self)@ == old(self)@,
                Ok(items) => res is Ok && final(self)@ == order_reconciled(
                    with_snapshot(old(self)@, queue_replaced(old(self)@.snapshot, items)),
                ),
            },
    {
        let ghost ids = track_ids.deep_view();
        let ghost ev = self@.entries;
        let mut items: Vec<MediaItem> = Vec::new();
        assert(ids.take(0) =~= Seq::<Seq<char>>::empty());
        assert(items_view(items@) =~= Seq::<MediaItemView>::empty());
        let mut i: usize = 0;
        while i < track_ids.len()
            invariant
                i <= track_ids@.len(),
                ids == track_ids.deep_view(),
                ev == entries_view(self.entries@),
                items_for(ev, ids.take(i as int)) == Ok::<Seq<MediaItemView>, Seq<char>>(
                    items_view(items@),
                ),
                self@ == old(self)@,
            decreases track_ids@.len() - i,
        {
            assert(ids.take(i + 1).drop_last() =~= ids.take(i as int));
            assert(ids[i as int] == track_ids@[i as int]@);
            match library_item(&self.entries, track_ids[i].as_str()) {
                Ok(item) => {
                    let ghost before = items_view(items@);
                    items.push(item);
                    assert(items_view(items@) =~= before.push(items@.last()@));
                },
                Err(e) => {
                    proof {
                        lemma_items_for_prefix_err(ev, ids, i + 1);
                    }
                    return Err(e);
                },
            }
            i = i + 1;
        }
        assert(ids.take(ids.len() as int) =~= ids);
        self.snapshot.queue = items;
        self.snapshot.current_item = None;
        self.snapshot.position_ms = 0;
        self.snapshot.status = PlaybackStatus::Paused;
        self.reconcile_shuffle_order();
        Ok(())
    }

    /// Queues a library track right after the current one (first when nothing is
    /// current); an earlier queue entry of it is dropped first.
    pub fn queue_track_next(&mut self, id: &str) -> (res: Result<(), YouTubePlaybackError>)
        ensures
            match library_item_of(old(self)@.entries, id@) {
                None => res matches Err(YouTubePlaybackError::TrackNotFound { id: e }) && e@ == id@
                    && final(self)@ == old(self)@,
                Some(item) => res is Ok && final(self)@ == order_reconciled(
                    with_snapshot(
                        old(self)@,
                        queued_next(old(self)@.snapshot, id@, item),
                    ),
                ),
            },
    {
        let item = library_item(&self.entries, id)?;
        self.drop_from_queue(id);
        let n = self.snapshot.queue.len();
        let at = match self.current_index() {
            Some(c) => {
                assert(c < n);
                c + 1
            },
            None => 0,
        };
        let ghost before = self.snapshot.queue@;
        self.snapshot.queue.insert(at, item);
        assert(items_view(self.snapshot.queue@) =~= items_view(before).insert(at as int, item@));
        self.reconcile_shuffle_order();
        Ok(())
    }

    /// Queues a library track at the end; an earlier queue entry of it is dropped first.
    pub fn add_to_queue(&mut self, id: &str) -> (res: Result<(), YouTubePlaybackError>)
        ensures
            match library_item_of(old(self)@.entries, id@) {
                None => res matches Err(YouTubePlaybackError::TrackNotFound { id: e }) && e@ == id@
                    && final(self)@ == old(self)@,
                Some(item) => res is Ok && final(self)@ == order_reconciled(
                    with_snapshot(
                        old(self)@,
                        with_queue(
                            old(self)@.snapshot,
                            queue_without(old(self)@.snapshot.queue, id@).push(item),
                        ),
                    ),
                ),
            },
    {
        let item = library_item(&self.entries, id)?;
        self.drop_from_queue(id);
        let ghost before = self.snapshot.queue@;
        self.snapshot.queue.push(item);
        assert(items_view(self.snapshot.queue@) =~= items_view(before).push(item@));
        self.reconcile_shuffle_order();
        Ok(())
    }
}

/// The first missing track of a prefix, once found, is that of the whole list.
proof fn lemma_items_for_prefix_err(entries: Seq<QueueEntryView>, ids: Seq<Seq<char>>, k: int)
    requires
        0 <= k <= ids.len(),
        items_for(entries, ids.take(k)) is Err,
    ensures
        items_for(entries, ids) == items_for(entries, ids.take(k)),
    decreases ids.len() - k,
{
    if k < ids.len() {
        assert(ids.take(k + 1).drop_last() =~= ids.take(k));
        lemma_items_for_prefix_err(entries, ids, k + 1);
    } else {
        assert(ids.take(k) =~= ids);
    }
}


/// The playback state sent to every window: the snapshot with the shuffle order.
pub open spec fn complete_snapshot(v: ProviderView) -> PlaybackSnapshotView {
    PlaybackSnapshotView { playback_order: v.shuffle_order, ..v.snapshot }
}

/// A change that the windows must hear about beyond the moving position: another
/// current track, queue, repeat mode or shuffle setting.
pub open spec fn requires_broadcast(before: PlaybackSnapshotView, after: PlaybackSnapshotView) -> bool {
    ||| before.current_item != after.current_item
    ||| before.queue != after.queue
    ||| before.repeat_mode != after.repeat_mode
    ||| before.shuffle_enabled != after.shuffle_enabled
}

/// Two optional tracks are equal.
fn same_opt_item(a: &Option<MediaItem>, b: &Option<MediaItem>) -> (r: bool)
    ensures
        r == (opt_item_view(*a) == opt_item_view(*b)),
{
    match (a, b) {
        (Some(x), Some(y)) => same_item(x, y),
        (None, None) => true,
        _ => false,
    }
}

fn same_strings(a: &Vec<String>, b: &Vec<String>) -> (r: bool)
    ensures
        r == (a.deep_view() == b.deep_view()),
{
    if a.len() != b.len() {
        assert(a.deep_view().len() != b.deep_view().len());
        return false;
    }
    let mut i: usize = 0;
    while i < a.len()
        invariant
            i <= a@.len(),
            a@.len() == b@.len(),
            forall|j: int| 0 <= j < i ==> a.deep_view()[j] == b.deep_view()[j],
        decreases a@.len() - i,
    {
        if a[i] != b[i] {
            assert(a.deep_view()[i as int] != b.deep_view()[i as int]);
            return false;
        }
        i = i + 1;
    }
    assert(a.deep_view() =~= b.deep_view());
    true
}

fn same_opt_string(a: &Option<String>, b: &Option<String>) -> (r: bool)
    ensures
        r == (a.deep_view() == b.deep_view()),
{
    match (a, b) {
        (Some(x), Some(y)) => *x == *y,
        (None, None) => true,
        _ => false,
    }
}

fn same_numbers(a: &Vec<u64>, b: &Vec<u64>) -> (r: bool)
    ensures
        r == (a@ == b@),
{
    if a.len() != b.len() {
        return false;
    }
    let mut i: usize = 0;
    while i < a.len()
        invariant
            i <= a@.len(),
            a@.len() == b@.len(),
            forall|j: int| 0 <= j < i ==> a@[j] == b@[j],
        decreases a@.len() - i,
    {
        if a[i] != b[i] {
            return false;
        }
        i = i + 1;
    }
    assert(a@ =~= b@);
    true
}

/// Two tracks are equal in every field.
fn same_item(a: &MediaItem, b: &MediaItem) -> (r: bool)
    ensures
        r == (a@ == b@),
{
    a.id == b.id && a.provider == b.provider && same_opt_string(&a.source_url, &b.source_url)
        && a.title == b.title && a.artist == b.artist && same_opt_string(&a.album, &b.album)
        && same_opt_string(&a.album_artist, &b.album_artist) && a.track_number == b.track_number
        && a.disc_number == b.disc_number && same_opt_string(&a.release_date, &b.release_date)
        && same_opt_string(&a.upload_date, &b.upload_date) && same_opt_string(
        &a.description,
        &b.description,
    ) && same_opt_string(&a.channel, &b.channel) && same_opt_string(&a.channel_id, &b.channel_id)
        && same_opt_string(&a.uploader, &b.uploader) && same_opt_string(
        &a.uploader_id,
        &b.uploader_id,
    ) && same_opt_string(&a.thumbnail_url, &b.thumbnail_url) && same_opt_string(
        &a.label,
        &b.label,
    ) && same_strings(&a.genres, &b.genres) && same_strings(&a.categories, &b.categories)
        && same_strings(&a.tags, &b.tags) && same_opt_string(&a.language, &b.language)
        && same_opt_string(&a.availability, &b.availability) && a.is_live == b.is_live
        && a.view_count == b.view_count && a.like_count == b.like_count && a.duration_ms
        == b.duration_ms && a.metadata_dirty == b.metadata_dirty && a.play_count == b.play_count
        && a.last_played_at_ms == b.last_played_at_ms && same_numbers(
        &a.play_history_ms,
        &b.play_history_ms,
    )
}

fn same_queue(a: &Vec<MediaItem>, b: &Vec<MediaItem>) -> (r: bool)
    ensures
        r == (items_view(a@) == items_view(b@)),
{
    if a.len() != b.len() {
        assert(items_view(a@).len() != items_view(b@).len());
        return false;
    }
    let mut i: usize = 0;
    while i < a.len()
        invariant
            i <= a@.len(),
            a@.len() == b@.len(),
            forall|j: int| 0 <= j < i ==> items_view(a@)[j] == items_view(b@)[j],
        decreases a@.len() - i,
    {
        if !same_item(&a[i], &b[i]) {
            assert(items_view(a@)[i as int] != items_view(b@)[i as int]);
            return false;
        }
        i = i + 1;
    }
    assert(items_view(a@) =~= items_view(b@));
    true
}

/// Whether a change between two snapshots must be broadcast (see `requires_broadcast`).
pub fn snapshot_requires_broadcast(before: &PlaybackSnapshot, after: &PlaybackSnapshot) -> (r: bool)
    ensures
        r == requires_broadcast(before@, after@),
{
    !same_opt_item(&before.current_item, &after.current_item) || !same_queue(
        &before.queue,
        &after.queue,
    ) || before.repeat_mode != after.repeat_mode || before.shuffle_enabled
        != after.shuffle_enabled
}

impl YouTubePlaybackProvider {
    /// An empty library with an empty, paused queue at 72% volume.
    pub fn new() -> (res: YouTubePlaybackProvider)
        ensures
            res@.entries.len() == 0,
            res@.playlists.len() == 0,
            res@.shuffle_order.len() == 0,
            res@.snapshot.status == PlaybackStatus::Paused,
            res@.snapshot.current_item is None,
            res@.snapshot.position_ms == 0,
            res@.snapshot.volume_percent == 72,
            !res@.snapshot.shuffle_enabled,
            res@.snapshot.repeat_mode == RepeatMode::Off,
            res@.snapshot.queue.len() == 0,
            res@.snapshot.playback_order.len() == 0,
    {
        YouTubePlaybackProvider::with_library(Vec::new(), Vec::new())
    }

    /// A library of tracks and playlists with an empty, paused queue at 72% volume.
    pub fn with_library(entries: Vec<QueueEntry>, playlists: Vec<Playlist>) -> (res:
        YouTubePlaybackProvider)
        ensures
            res@.entries == entries_view(entries@),
            res@.playlists == playlists_view(playlists@),
            res@.shuffle_order.len() == 0,
            res@.snapshot.status == PlaybackStatus::Paused,
            res@.snapshot.current_item is None,
            res@.snapshot.position_ms == 0,
            res@.snapshot.volume_percent == 72,
            !res@.snapshot.shuffle_enabled,
            res@.snapshot.repeat_mode == RepeatMode::Off,
            res@.snapshot.queue.len() == 0,
            res@.snapshot.playback_order.len() == 0,
    {
        YouTubePlaybackProvider {
            entries,
            playlists,
            shuffle_order: Vec::new(),
            snapshot: PlaybackSnapshot {
                status: PlaybackStatus::Paused,
                current_item: None,
                position_ms: 0,
                volume_percent: 72,
                shuffle_enabled: false,
                repeat_mode: RepeatMode::Off,
                queue: Vec::new(),
                playback_order: Vec::new(),
            },
        }
    }

    /// The playback state for the windows (see `complete_snapshot`).
    pub fn complete_snapshot(&self) -> (res: PlaybackSnapshot)
        ensures
            res@ == complete_snapshot(self@),
    {
        let mut snapshot = self.snapshot.duplicate();
        snapshot.playback_order = crate::playback::clone_ids(&self.shuffle_order);
        snapshot
    }

    /// Turns shuffle on, with a new order drawn from `seed` (current track first), or off.
    pub fn toggle_shuffle(&mut self, seed: u64)
        ensures
            !old(self)@.snapshot.shuffle_enabled ==> final(self)@ == with_order(
                with_snapshot(
                    old(self)@,
                    PlaybackSnapshotView { shuffle_enabled: true, ..old(self)@.snapshot },
                ),
                reset_order(
                    old(self)@.snapshot.queue,
                    current_track_id(old(self)@.snapshot.current_item),
                    seed,
                ),
            ),
            old(self)@.snapshot.shuffle_enabled ==> final(self)@ == with_order(
                with_snapshot(
                    old(self)@,
                    PlaybackSnapshotView { shuffle_enabled: false, ..old(self)@.snapshot },
                ),
                seq![],
            ),
    {
        self.snapshot.shuffle_enabled = !self.snapshot.shuffle_enabled;
        if self.snapshot.shuffle_enabled {
            let current_id = match &self.snapshot.current_item {
                Some(item) => Some(item.id.clone()),
                None => None,
            };
            let cur = match &current_id {
                Some(c) => Some(c.as_str()),
                None => None,
            };
            assert(crate::metadata::opt_str_view(cur) == current_track_id(self@.snapshot.current_item));
            self.reset_shuffle_order(cur, seed);
        } else {
            self.shuffle_order = Vec::new();
            assert(self@.shuffle_order =~= Seq::<Seq<char>>::empty());
        }
    }

    /// Moves to the next repeat mode (Off, All, One) and returns it.
    pub fn cycle_repeat_mode(&mut self) -> (res: RepeatMode)
        ensures
            res == next_repeat_mode(old(self)@.snapshot.repeat_mode),
            final(self)@ == with_snapshot(
                old(self)@,
                PlaybackSnapshotView { repeat_mode: res, ..old(self)@.snapshot },
            ),
    {
        self.snapshot.repeat_mode = self.snapshot.repeat_mode.cycle();
        self.snapshot.repeat_mode
    }

    /// Sets the volume, which must be at most 100 (`InvalidVolume` otherwise).
    pub fn set_volume(&mut self, volume_percent: u8) -> (res: Result<(), YouTubePlaybackError>)
        ensures
            volume_percent > 100 ==> (res matches Err(YouTubePlaybackError::InvalidVolume)
                && final(self)@ == old(self)@),
            volume_percent <= 100 ==> (res is Ok && final(self)@ == with_snapshot(
                old(self)@,
                PlaybackSnapshotView { volume_percent, ..old(self)@.snapshot },
            )),
    {
        if volume_percent > 100 {
            return Err(YouTubePlaybackError::InvalidVolume);
        }
        self.snapshot.volume_percent = volume_percent;
        Ok(())
    }
}


/// The playback state saved when the application closes.
#[derive(Clone, Debug, PartialEq, Eq)]
pub struct SavedPlaybackState {
    pub current_item_id: Option<String>,
    pub position_ms: u64,
    pub volume_percent: u8,
    pub shuffle_enabled: bool,
    pub repeat_mode: RepeatMode,
    pub queue_ids: Vec<String>,
    pub shuffle_order: Vec<String>,
}

/// The library's tracks for a list of IDs, those no longer in the library left out.
pub open spec fn items_from_ids(entries: Seq<QueueEntryView>, ids: Seq<Seq<char>>) -> Seq<MediaItemView>
    decreases ids.len(),
{
    if ids.len() == 0 {
        seq![]
    } else {
        let prev = items_from_ids(entries, ids.drop_last());
        match library_item_of(entries, ids.last()) {
            Some(item) => prev.push(item),
            None => prev,
        }
    }
}

/// The snapshot that a saved state restores: the queue from the library, the current
/// track where it is still queued, its position clamped to its duration, paused.
pub open spec fn restored_snapshot(s: PlaybackSnapshotView, v: ProviderView, state: SavedPlaybackState) -> PlaybackSnapshotView {
    let queue = items_from_ids(v.entries, state.queue_ids.deep_view());
    let current = match state.current_item_id.deep_view() {
        Some(id) => match first_index(item_ids(queue), id) {
            Some(k) => Some(queue[k]),
            None => None,
        },
        None => None,
    };
    PlaybackSnapshotView {
        queue,
        current_item: current,
        position_ms: match current {
            Some(c) => if state.position_ms < c.duration_ms {
                state.position_ms
            } else {
                c.duration_ms
            },
            None => 0,
        },
        status: PlaybackStatus::Paused,
        volume_percent: state.volume_percent,
        shuffle_enabled: state.shuffle_enabled,
        repeat_mode: state.repeat_mode,
        ..s
    }
}

/// A track whose metadata still needs a full refresh.
#[derive(Clone, Debug, PartialEq, Eq)]
pub struct DirtyTrack {
    pub id: String,
    pub title: String,
}

/// The tracks whose metadata still needs a full refresh, as (ID, title), in order.
pub open spec fn dirty_of(entries: Seq<QueueEntryView>) -> Seq<(Seq<char>, Seq<char>)>
    decreases entries.len(),
{
    if entries.len() == 0 {
        seq![]
    } else {
        let prev = dirty_of(entries.drop_last());
        if entries.last().item.metadata_dirty {
            prev.push((entries.last().item.id, entries.last().item.title))
        } else {
            prev
        }
    }
}

/// The source URL of the first entry of `id` that still needs a refresh.
pub open spec fn dirty_source(entries: Seq<QueueEntryView>, id: Seq<char>) -> Option<Seq<char>>
    decreases entries.len(),
{
    if entries.len() == 0 {
        None
    } else {
        match dirty_source(entries.drop_last(), id) {
            Some(u) => Some(u),
            None => if entries.last().item.id == id && entries.last().item.metadata_dirty {
                Some(entries.last().source_url)
            } else {
                None
            },
        }
    }
}

/// The state after an import: tracks that turned out to be members-only leave the
/// library, the imported tracks merge in, and the queue follows.
pub open spec fn import_committed(v: ProviderView, imported: Seq<QueueEntryView>, skipped: Seq<Seq<char>>) -> ProviderView {
    reconciled(with_entries(v, merged(entries_without(v.entries, skipped), imported)))
}

impl YouTubePlaybackProvider {
    /// Evaluates a smart playlist over the library without changing anything: the
    /// library's tracks in order, Favorites membership and one clock value (see
    /// `crate::smart::resolve`). An invalid definition is `InvalidPlaylist` with the
    /// validation message.
    pub fn preview_smart_playlist(
        &self,
        definition: &crate::smart::SmartPlaylistDefinition,
        now_ms: u64,
    ) -> (res: Result<crate::smart::SmartPlaylistPreview, YouTubePlaybackError>)
        ensures
            !crate::smart::definition_valid(*definition) ==> (res matches Err(
                YouTubePlaybackError::InvalidPlaylist(m),
            ) && crate::smart::validation_message(*definition, m@)),
            crate::smart::definition_valid(*definition) ==> (res matches Ok(p) && exists|
                order: Seq<int>,
            |
                crate::smart::resolution_order(
                    *definition,
                    library_items(self@.entries),
                    favorite_track_ids(self@.playlists),
                    now_ms,
                    order,
                ) && crate::smart::preview_of(
                    *definition,
                    library_items(self@.entries),
                    favorite_track_ids(self@.playlists),
                    now_ms,
                    order,
                    p,
                )),
    {
        match definition.validate() {
            Err(message) => {
                return Err(YouTubePlaybackError::InvalidPlaylist(message));
            },
            Ok(()) => {},
        }
        let library = self.library_snapshot();
        let favorites = match favorites_position(&self.playlists) {
            Some(j) => {
                assert(playlists_view(self.playlists@)[j as int] == self.playlists@[j as int]@);
                clone_strings(&self.playlists[j].track_ids)
            },
            None => {
                let v: Vec<String> = Vec::new();
                assert(v.deep_view() =~= Seq::<Seq<char>>::empty());
                v
            },
        };
        assert(favorites.deep_view() == favorite_track_ids(playlists_view(self.playlists@)));
        assert(crate::smart::views(library.tracks@) =~= items_view(library.tracks@));
        Ok(crate::smart::resolve(definition, &library.tracks, &favorites, now_ms))
    }
}

impl YouTubePlaybackProvider {
    /// The track at a queue position and the source URL that the player loads for it.
    /// A position outside the queue is `QueueIndexOutOfBounds`; a track that left the
    /// library is `TrackNotFound`.
    pub fn queued_source(&self, index: usize) -> (res: Result<(MediaItem, String), YouTubePlaybackError>)
        ensures
            index >= self@.snapshot.queue.len() ==> (res matches Err(
                YouTubePlaybackError::QueueIndexOutOfBounds { index: i },
            ) && i == index),
            index < self@.snapshot.queue.len() ==> match first_index(
                entry_ids(self@.entries),
                self@.snapshot.queue[index as int].id,
            ) {
                None => res matches Err(YouTubePlaybackError::TrackNotFound { id: e }) && e@
                    == self@.snapshot.queue[index as int].id,
                Some(j) => res matches Ok((item, url)) && item@ == self@.snapshot.queue[index as int]
                    && url@ == self@.entries[j].source_url,
            },
    {
        if index >= self.snapshot.queue.len() {
            return Err(YouTubePlaybackError::QueueIndexOutOfBounds { index });
        }
        let item = self.snapshot.queue[index].duplicate();
        match position_of_track(&self.entries, item.id.as_str()) {
            Some(j) => {
                let url = self.entries[j].source_url.clone();
                Ok((item, url))
            },
            None => Err(YouTubePlaybackError::TrackNotFound { id: item.id.clone() }),
        }
    }

    /// Makes a track current at position zero, once the player has loaded it.
    pub fn mark_selected(&mut self, item: MediaItem)
        ensures
            final(self)@ == with_snapshot(
                old(self)@,
                PlaybackSnapshotView {
                    current_item: Some(item@),
                    position_ms: 0,
                    ..old(self)@.snapshot
                },
            ),
    {
        self.snapshot.current_item = Some(item);
        self.snapshot.position_ms = 0;
    }

    /// Sets whether the player is playing.
    pub fn set_status(&mut self, status: PlaybackStatus)
        ensures
            final(self)@ == with_snapshot(
                old(self)@,
                PlaybackSnapshotView { status, ..old(self)@.snapshot },
            ),
    {
        self.snapshot.status = status;
    }

    /// Takes what the player reports: paused or playing, and the position.
    pub fn apply_player_state(&mut self, paused: bool, position_ms: u64)
        ensures
            final(self)@ == with_snapshot(
                old(self)@,
                PlaybackSnapshotView {
                    status: if paused {
                        PlaybackStatus::Paused
                    } else {
                        PlaybackStatus::Playing
                    },
                    position_ms,
                    ..old(self)@.snapshot
                },
            ),
    {
        self.snapshot.status = if paused {
            PlaybackStatus::Paused
        } else {
            PlaybackStatus::Playing
        };
        self.snapshot.position_ms = position_ms;
    }

    /// Takes a sample of the player: when a track that was playing has ended, the state
    /// is left as it is and the caller advances the queue (`true`); otherwise the sample's
    /// status and position are taken (`false`).
    pub fn observe_player(&mut self, state: crate::player::PlayerState) -> (advance: bool)
        ensures
            advance == (old(self)@.snapshot.status == PlaybackStatus::Playing && state.eof_reached),
            advance ==> final(self)@ == old(self)@,
            !advance ==> final(self)@ == with_snapshot(
                old(self)@,
                PlaybackSnapshotView {
                    status: if state.paused {
                        PlaybackStatus::Paused
                    } else {
                        PlaybackStatus::Playing
                    },
                    position_ms: state.position_ms,
                    ..old(self)@.snapshot
                },
            ),
    {
        let was_playing = self.snapshot.status == PlaybackStatus::Playing;
        if was_playing && state.eof_reached {
            return true;
        }
        self.apply_player_state(state.paused, state.position_ms);
        false
    }

    /// Seeks within the current track: the position is clamped to its duration and
    /// returned for the player; without a current track nothing happens (`None`).
    pub fn seek(&mut self, position_ms: u64) -> (res: Option<u64>)
        ensures
            match old(self)@.snapshot.current_item {
                None => res is None && final(self)@ == old(self)@,
                Some(c) => {
                    let p = if position_ms < c.duration_ms {
                        position_ms
                    } else {
                        c.duration_ms
                    };
                    res == Some(p) && final(self)@ == with_snapshot(
                        old(self)@,
                        PlaybackSnapshotView { position_ms: p, ..old(self)@.snapshot },
                    )
                },
            },
    {
        let p = match &self.snapshot.current_item {
            Some(c) => if position_ms < c.duration_ms {
                position_ms
            } else {
                c.duration_ms
            },
            None => return None,
        };
        self.snapshot.position_ms = p;
        Some(p)
    }

    /// Finds a queued track for the user to play; with shuffle on, a new order starts
    /// from it. A track that is not queued is `TrackNotFound`.
    pub fn play_track(&mut self, id: &str, seed: u64) -> (res: Result<usize, YouTubePlaybackError>)
        ensures
            match first_index(item_ids(old(self)@.snapshot.queue), id@) {
                None => res matches Err(YouTubePlaybackError::TrackNotFound { id: e }) && e@ == id@
                    && final(self)@ == old(self)@,
                Some(k) => res == Ok::<usize, YouTubePlaybackError>(k as usize) && final(self)@ == if old(
                    self,
                )@.snapshot.shuffle_enabled {
                    with_order(old(self)@, reset_order(old(self)@.snapshot.queue, Some(id@), seed))
                } else {
                    old(self)@
                },
            },
    {
        let key = String::from_str(id);
        let index = match crate::playback::position_of_item(&self.snapshot.queue, &key) {
            Some(i) => i,
            None => return Err(YouTubePlaybackError::TrackNotFound { id: key }),
        };
        if self.snapshot.shuffle_enabled {
            self.reset_shuffle_order(Some(id), seed);
        }
        Ok(index)
    }

    /// Commits an import (see `import_committed`) and returns the new playback state.
    pub fn commit_youtube_import(&mut self, imported: crate::metadata::ResolvedYouTubeImport) -> (res:
        PlaybackSnapshot)
        ensures
            final(self)@ == import_committed(
                old(self)@,
                entries_view(imported.entries@),
                imported.skipped_member_only_ids.deep_view(),
            ),
            res@ == final(self)@.snapshot,
    {
        let ghost skipped = imported.skipped_member_only_ids.deep_view();
        let ghost ev = self@.entries;
        let ghost pred = |e: QueueEntryView| !skipped.contains(e.item.id);
        let mut old_entries: Vec<QueueEntry> = Vec::new();
        std::mem::swap(&mut old_entries, &mut self.entries);
        let ghost oe = old_entries@;
        for entry in it: old_entries.into_iter()
            invariant
                it.seq() == oe,
                ev == entries_view(oe),
                skipped == imported.skipped_member_only_ids.deep_view(),
                pred == (|e: QueueEntryView| !skipped.contains(e.item.id)),
                entries_view(self.entries@) == ev.take(it.index() as int).filter(pred),
                self.playlists == old(self).playlists,
                self.snapshot == old(self).snapshot,
                self.shuffle_order == old(self).shuffle_order,
        {
            let ghost k = it.index();
            assert(ev.take(k + 1).drop_last() =~= ev.take(k as int));
            assert(ev[k as int] == entry@);
            reveal_with_fuel(Seq::filter, 1);
            if !ids_have(&imported.skipped_member_only_ids, &entry.item.id) {
                let ghost before = entries_view(self.entries@);
                self.entries.push(entry);
                assert(entries_view(self.entries@) =~= before.push(entry@));
            }
        }
        assert(ev.take(ev.len() as int) =~= ev);
        merge_queue_entries(&mut self.entries, imported.entries);
        self.reconcile_queue();
        self.snapshot.duplicate()
    }

    /// Restores the playback state saved at the last close (see `restored_snapshot`),
    /// keeping the shuffle order in step with the restored queue.
    pub fn restore_playback_state(&mut self, state: SavedPlaybackState)
        ensures
            final(self)@ == order_reconciled(
                with_order(
                    with_snapshot(old(self)@, restored_snapshot(old(self)@.snapshot, old(self)@, state)),
                    state.shuffle_order.deep_view(),
                ),
            ),
    {
        let ghost st = state;
        let ghost ids = state.queue_ids.deep_view();
        let ghost ev = self@.entries;
        let mut queue: Vec<MediaItem> = Vec::new();
        let mut i: usize = 0;
        assert(ids.take(0) =~= Seq::<Seq<char>>::empty());
        assert(items_view(queue@) =~= Seq::<MediaItemView>::empty());
        while i < state.queue_ids.len()
            invariant
                i <= state.queue_ids@.len(),
                ids == state.queue_ids.deep_view(),
                ev == entries_view(self.entries@),
                items_view(queue@) == items_from_ids(ev, ids.take(i as int)),
            decreases state.queue_ids@.len() - i,
        {
            assert(ids.take(i + 1).drop_last() =~= ids.take(i as int));
            assert(ids[i as int] == state.queue_ids@[i as int]@);
            match position_of_track(&self.entries, state.queue_ids[i].as_str()) {
                Some(j) => {
                    let ghost before = items_view(queue@);
                    queue.push(self.entries[j].item.duplicate());
                    assert(items_view(queue@) =~= before.push(ev[j as int].item));
                },
                None => {},
            }
            i = i + 1;
        }
        assert(ids.take(ids.len() as int) =~= ids);
        let current = match &state.current_item_id {
            Some(id) => match crate::playback::position_of_item(&queue, id) {
                Some(k) => Some(queue[k].duplicate()),
                None => None,
            },
            None => None,
        };
        let position = match &current {
            Some(c) => if state.position_ms < c.duration_ms {
                state.position_ms
            } else {
                c.duration_ms
            },
            None => 0,
        };
        self.snapshot.queue = queue;
        self.snapshot.current_item = current;
        self.snapshot.position_ms = position;
        self.snapshot.status = PlaybackStatus::Paused;
        self.snapshot.volume_percent = state.volume_percent;
        self.snapshot.shuffle_enabled = state.shuffle_enabled;
        self.snapshot.repeat_mode = state.repeat_mode;
        self.shuffle_order = state.shuffle_order;
        self.reconcile_shuffle_order();
    }

    /// The tracks whose metadata still needs a full refresh (see `dirty_of`).
    pub fn dirty_tracks(&self) -> (res: Vec<DirtyTrack>)
        ensures
            res@.map_values(|d: DirtyTrack| (d.id@, d.title@)) == dirty_of(self@.entries),
    {
        let ghost ev = self@.entries;
        let mut res: Vec<DirtyTrack> = Vec::new();
        let mut i: usize = 0;
        while i < self.entries.len()
            invariant
                i <= self.entries@.len(),
                ev == entries_view(self.entries@),
                res@.map_values(|d: DirtyTrack| (d.id@, d.title@)) == dirty_of(ev.take(i as int)),
            decreases self.entries@.len() - i,
        {
            assert(ev.take(i + 1).drop_last() =~= ev.take(i as int));
            assert(ev[i as int] == self.entries@[i as int]@);
            if self.entries[i].item.metadata_dirty {
                let d = DirtyTrack {
                    id: self.entries[i].item.id.clone(),
                    title: self.entries[i].item.title.clone(),
                };
                let ghost before = res@;
                res.push(d);
                assert(res@.map_values(|d: DirtyTrack| (d.id@, d.title@)) =~= before.map_values(
                    |d: DirtyTrack| (d.id@, d.title@),
                ).push((ev[i as int].item.id, ev[i as int].item.title)));
            }
            i = i + 1;
        }
        assert(ev.take(ev.len() as int) =~= ev);
        res
    }

    /// The source URL of a track that still needs a refresh (see `dirty_source`).
    pub fn dirty_track_source(&self, id: &str) -> (res: Option<String>)
        ensures
            res.deep_view() == dirty_source(self@.entries, id@),
    {
        let ghost ev = self@.entries;
        let mut i: usize = 0;
        while i < self.entries.len()
            invariant
                i <= self.entries@.len(),
                ev == entries_view(self.entries@),
                dirty_source(ev.take(i as int), id@) is None,
            decreases self.entries@.len() - i,
        {
            assert(ev.take(i + 1).drop_last() =~= ev.take(i as int));
            assert(ev[i as int] == self.entries@[i as int]@);
            if crate::text::str_equal(self.entries[i].item.id.as_str(), id)
                && self.entries[i].item.metadata_dirty {
                proof {
                    lemma_dirty_source_prefix(ev, id@, i + 1);
                }
                return Some(self.entries[i].source_url.clone());
            }
            i = i + 1;
        }
        assert(ev.take(ev.len() as int) =~= ev);
        None
    }
}

proof fn lemma_dirty_source_prefix(entries: Seq<QueueEntryView>, id: Seq<char>, k: int)
    requires
        0 <= k <= entries.len(),
        dirty_source(entries.take(k), id) is Some,
    ensures
        dirty_source(entries, id) == dirty_source(entries.take(k), id),
    decreases entries.len() - k,
{
    if k < entries.len() {
        assert(entries.take(k + 1).drop_last() =~= entries.take(k));
        lemma_dirty_source_prefix(entries, id, k + 1);
    } else {
        assert(entries.take(k) =~= entries);
    }
}


/// The first problem of stored playlists, checked in order: a blank ID or name, an ID
/// that an earlier playlist has, then a track that is not in the library.
pub open spec fn stored_playlists_error(entries: Seq<QueueEntryView>, playlists: Seq<PlaylistView>) -> Option<
    Seq<char>,
>
    decreases playlists.len(),
{
    if playlists.len() == 0 {
        None
    } else {
        match stored_playlists_error(entries, playlists.drop_last()) {
            Some(m) => Some(m),
            None => {
                let p = playlists.last();
                if trim_seq(p.id).len() == 0 || trim_seq(p.name).len() == 0 {
                    Some("the library contains an invalid playlist"@)
                } else if playlist_ids(playlists.drop_last()).contains(p.id) {
                    Some("the library contains duplicate playlist IDs"@)
                } else if exists|k: int|
                    0 <= k < p.track_ids.len() && !entry_ids(entries).contains(
                        #[trigger] p.track_ids[k],
                    ) {
                    Some("the library playlist references an unknown track"@)
                } else {
                    None
                }
            },
        }
    }
}

fn id_repeats(playlists: &Vec<Playlist>, i: usize) -> (r: bool)
    requires
        i < playlists@.len(),
    ensures
        r == playlist_ids(playlists_view(playlists@).take(i as int)).contains(playlists@[i as int].id@),
{
    let ghost ids = playlist_ids(playlists_view(playlists@).take(i as int));
    let mut k: usize = 0;
    while k < i
        invariant
            k <= i < playlists@.len(),
            ids == playlist_ids(playlists_view(playlists@).take(i as int)),
            forall|q: int| 0 <= q < k ==> ids[q] != playlists@[i as int].id@,
        decreases i - k,
    {
        assert(ids[k as int] == playlists@[k as int].id@);
        if playlists[k].id == playlists[i].id {
            assert(ids[k as int] == playlists@[i as int].id@);
            return true;
        }
        k = k + 1;
    }
    false
}

fn has_unknown_track(entries: &Vec<QueueEntry>, p: &Playlist) -> (r: bool)
    ensures
        r == exists|k: int|
            0 <= k < p@.track_ids.len() && !entry_ids(entries_view(entries@)).contains(
                #[trigger] p@.track_ids[k],
            ),
{
    let mut t: usize = 0;
    while t < p.track_ids.len()
        invariant
            t <= p.track_ids@.len(),
            forall|q: int|
                0 <= q < t ==> entry_ids(entries_view(entries@)).contains(
                    #[trigger] p@.track_ids[q],
                ),
        decreases p.track_ids@.len() - t,
    {
        assert(p@.track_ids[t as int] == p.track_ids@[t as int]@);
        if !has_track_exec(entries, p.track_ids[t].as_str()) {
            return true;
        }
        t = t + 1;
    }
    false
}

/// Checks stored playlists (see `stored_playlists_error`); a problem is `Library`.
pub fn validate_stored_playlists(entries: &Vec<QueueEntry>, playlists: &Vec<Playlist>) -> (res: Result<
    (),
    YouTubePlaybackError,
>)
    ensures
        match stored_playlists_error(entries_view(entries@), playlists_view(playlists@)) {
            Some(m) => res matches Err(YouTubePlaybackError::Library(e)) && e@ == m,
            None => res is Ok,
        },
{
    let ghost pv = playlists_view(playlists@);
    let ghost ev = entries_view(entries@);
    let mut i: usize = 0;
    while i < playlists.len()
        invariant
            i <= playlists@.len(),
            pv == playlists_view(playlists@),
            ev == entries_view(entries@),
            stored_playlists_error(ev, pv.take(i as int)) is None,
        decreases playlists@.len() - i,
    {
        assert(pv.take(i + 1).drop_last() =~= pv.take(i as int));
        assert(pv.take(i + 1).last() == playlists@[i as int]@);
        let p = &playlists[i];
        if crate::text::trim_str(p.id.as_str()).as_str().is_empty() || crate::text::trim_str(
            p.name.as_str(),
        ).as_str().is_empty() {
            proof {
                lemma_stored_error_prefix(ev, pv, i + 1);
            }
            return Err(
                YouTubePlaybackError::Library(
                    String::from_str("the library contains an invalid playlist"),
                ),
            );
        }
        if id_repeats(playlists, i) {
            proof {
                lemma_stored_error_prefix(ev, pv, i + 1);
            }
            return Err(
                YouTubePlaybackError::Library(
                    String::from_str("the library contains duplicate playlist IDs"),
                ),
            );
        }
        if has_unknown_track(entries, p) {
            proof {
                lemma_stored_error_prefix(ev, pv, i + 1);
            }
            return Err(
                YouTubePlaybackError::Library(
                    String::from_str("the library playlist references an unknown track"),
                ),
            );
        }
        i = i + 1;
    }
    assert(pv.take(pv.len() as int) =~= pv);
    Ok(())
}

proof fn lemma_stored_error_prefix(entries: Seq<QueueEntryView>, playlists: Seq<PlaylistView>, k: int)
    requires
        0 <= k <= playlists.len(),
        stored_playlists_error(entries, playlists.take(k)) is Some,
    ensures
        stored_playlists_error(entries, playlists) == stored_playlists_error(entries, playlists.take(k)),
    decreases playlists.len() - k,
{
    if k < playlists.len() {
        assert(playlists.take(k + 1).drop_last() =~= playlists.take(k));
        lemma_stored_error_prefix(entries, playlists, k + 1);
    } else {
        assert(playlists.take(k) =~= playlists);
    }
}


/// The newest version of the stored library format.
pub const LIBRARY_VERSION: u32 = 2;

/// A stored track is a YouTube video with an accepted source URL.
pub open spec fn valid_stored_entry(e: QueueEntryView) -> bool {
    crate::metadata::is_video_id(e.item.id) && crate::metadata::accepted_url(e.source_url) is Some
}

/// Checks a library read from the older JSON format: a known version (1 or 2), YouTube
/// tracks only, and valid playlists (see `validate_stored_playlists`).
pub fn validate_legacy_library(version: u32, entries: &Vec<QueueEntry>, playlists: &Vec<Playlist>) -> (res:
    Result<(), YouTubePlaybackError>)
    ensures
        !(1 <= version <= LIBRARY_VERSION) ==> (res matches Err(YouTubePlaybackError::Library(e))
            && e@ == "unsupported library version "@ + crate::text::decimal_seq(version as nat)),
        1 <= version <= LIBRARY_VERSION && (exists|i: int|
            0 <= i < entries@.len() && !valid_stored_entry(#[trigger] entries_view(entries@)[i]))
            ==> (res matches Err(YouTubePlaybackError::Library(e)) && e@
            == "the library contains an invalid YouTube track"@),
        1 <= version <= LIBRARY_VERSION && (forall|i: int|
            0 <= i < entries@.len() ==> valid_stored_entry(#[trigger] entries_view(entries@)[i]))
            ==> match stored_playlists_error(entries_view(entries@), playlists_view(playlists@)) {
            Some(m) => res matches Err(YouTubePlaybackError::Library(e)) && e@ == m,
            None => res is Ok,
        },
{
    if !(1 <= version && version <= LIBRARY_VERSION) {
        let mut message = String::from_str("unsupported library version ");
        let n = crate::text::decimal_text(version as u64);
        message.append(n.as_str());
        return Err(YouTubePlaybackError::Library(message));
    }
    let mut i: usize = 0;
    while i < entries.len()
        invariant
            i <= entries@.len(),
            1 <= version <= LIBRARY_VERSION,
            forall|k: int| 0 <= k < i ==> valid_stored_entry(#[trigger] entries_view(entries@)[k]),
        decreases entries@.len() - i,
    {
        assert(entries_view(entries@)[i as int] == entries@[i as int]@);
        let ok = crate::metadata::is_youtube_video_id(entries[i].item.id.as_str())
            && crate::metadata::validate_youtube_url(entries[i].source_url.as_str()).is_ok();
        if !ok {
            return Err(
                YouTubePlaybackError::Library(
                    String::from_str("the library contains an invalid YouTube track"),
                ),
            );
        }
        i = i + 1;
    }
    validate_stored_playlists(entries, playlists)
}


/// After the queue is reconciled, every queued track and the current track are the
/// library's own copies.
pub proof fn lemma_reconciled_queue_follows_library(v: ProviderView)
    ensures
        forall|i: int|
            0 <= i < reconciled(v).snapshot.queue.len() ==> library_item_of(
                v.entries,
                (#[trigger] reconciled(v).snapshot.queue[i]).id,
            ) == Some(reconciled(v).snapshot.queue[i]),
        reconciled(v).snapshot.current_item matches Some(c) ==> library_item_of(v.entries, c.id)
            == Some(c),
{
    lemma_reconciled_queue_items(v.entries, v.snapshot.queue);
}

proof fn lemma_reconciled_queue_items(entries: Seq<QueueEntryView>, queue: Seq<MediaItemView>)
    ensures
        forall|i: int|
            0 <= i < reconciled_queue(entries, queue).len() ==> library_item_of(
                entries,
                (#[trigger] reconciled_queue(entries, queue)[i]).id,
            ) == Some(reconciled_queue(entries, queue)[i]),
    decreases queue.len(),
{
    if queue.len() > 0 {
        lemma_reconciled_queue_items(entries, queue.drop_last());
        let prev = reconciled_queue(entries, queue.drop_last());
        match library_item_of(entries, queue.last().id) {
            Some(item) => {
                let j = first_index(entry_ids(entries), queue.last().id)->0;
                assert(entry_ids(entries)[j] == queue.last().id);
                assert(item.id == queue.last().id);
                assert forall|i: int| 0 <= i < prev.push(item).len() implies library_item_of(
                    entries,
                    (#[trigger] prev.push(item)[i]).id,
                ) == Some(prev.push(item)[i]) by {
                    if i < prev.len() {
                        assert(prev.push(item)[i] == prev[i]);
                    }
                }
            },
            None => {},
        }
    }
}

/// Reconciling keeps the queue's tracks that are still in the library, in their order.
proof fn lemma_reconciled_queue_ids(entries: Seq<QueueEntryView>, queue: Seq<MediaItemView>)
    ensures
        item_ids(reconciled_queue(entries, queue)) == item_ids(queue).filter(
            |id: Seq<char>| entry_ids(entries).contains(id),
        ),
    decreases queue.len(),
{
    reveal_with_fuel(Seq::filter, 1);
    let pred = |id: Seq<char>| entry_ids(entries).contains(id);
    if queue.len() > 0 {
        lemma_reconciled_queue_ids(entries, queue.drop_last());
        let prev = reconciled_queue(entries, queue.drop_last());
        let id = queue.last().id;
        assert(item_ids(queue).drop_last() =~= item_ids(queue.drop_last()));
        assert(item_ids(queue).last() == id);
        match first_index(entry_ids(entries), id) {
            Some(j) => {
                assert(entry_ids(entries)[j] == id);
                assert(pred(id));
                assert(item_ids(prev.push(entries[j].item)) =~= item_ids(prev).push(id));
            },
            None => {
                if entry_ids(entries).contains(id) {
                    let k = choose|k: int| 0 <= k < entry_ids(entries).len() && entry_ids(entries)[k] == id;
                    crate::metadata::lemma_first_index_found(entry_ids(entries), id, k);
                }
                assert(!pred(id));
            },
        }
    }
}

/// An import never starts playback or replaces the listening queue: the status, position,
/// volume, shuffle and repeat settings stay, and the queue keeps its tracks that are
/// still in the library, in their order.
pub proof fn lemma_import_keeps_playback(
    v: ProviderView,
    imported: Seq<QueueEntryView>,
    skipped: Seq<Seq<char>>,
)
    ensures
        import_committed(v, imported, skipped).snapshot.status == v.snapshot.status,
        import_committed(v, imported, skipped).snapshot.position_ms == v.snapshot.position_ms,
        import_committed(v, imported, skipped).snapshot.volume_percent == v.snapshot.volume_percent,
        import_committed(v, imported, skipped).snapshot.shuffle_enabled == v.snapshot.shuffle_enabled,
        import_committed(v, imported, skipped).snapshot.repeat_mode == v.snapshot.repeat_mode,
        item_ids(import_committed(v, imported, skipped).snapshot.queue) == item_ids(
            v.snapshot.queue,
        ).filter(
            |id: Seq<char>|
                entry_ids(import_committed(v, imported, skipped).entries).contains(id),
        ),
{
    let entries = merged(entries_without(v.entries, skipped), imported);
    lemma_reconciled_queue_ids(entries, v.snapshot.queue);
}

/// A play history never holds more than 500 plays and always ends with the newest one.
pub proof fn lemma_history_bounded(history: Seq<u64>, t: u64)
    requires
        history.len() <= 500,
    ensures
        history_after(history, t).len() <= 500,
        history_after(history, t).last() == t,
        history.len() < 500 ==> history_after(history, t) == history.push(t),
{
}

/// Toggling a favorite adds a track that was not there, and toggling it again gives back
/// the list as it was.
pub proof fn lemma_toggle_twice_restores(ids: Seq<Seq<char>>, id: Seq<char>)
    requires
        !ids.contains(id),
    ensures
        toggled(ids, id).contains(id),
        toggled(toggled(ids, id), id) == ids,
{
    let once = ids.push(id);
    if first_index(ids, id) is Some {
        let j = first_index(ids, id)->0;
        assert(ids[j] == id);
    }
    assert(toggled(ids, id) == once);
    assert(once[ids.len() as int] == id);
    assert forall|k: int| 0 <= k < ids.len() implies once[k] != id by {
        assert(once[k] == ids[k]);
    }
    crate::metadata::lemma_first_index_found(once, id, ids.len() as int);
    let j = first_index(once, id)->0;
    assert(j == ids.len());
    assert(once.remove(j) =~= ids);
}

/// Removing a track that is there takes it out, when it was there once.
pub proof fn lemma_toggle_removes(ids: Seq<Seq<char>>, id: Seq<char>, k: int)
    requires
        0 <= k < ids.len(),
        ids[k] == id,
        forall|q: int| 0 <= q < ids.len() && q != k ==> ids[q] != id,
    ensures
        !toggled(ids, id).contains(id),
        toggled(ids, id).len() == ids.len() - 1,
{
    crate::metadata::lemma_first_index_found(ids, id, k);
    let j = first_index(ids, id)->0;
    assert(j == k);
    let r = ids.remove(k);
    assert forall|q: int| 0 <= q < r.len() implies r[q] != id by {
        if q < k {
            assert(r[q] == ids[q]);
        } else {
            assert(r[q] == ids[q + 1]);
        }
    }
}

/// Moving a queue entry keeps the same tracks in the queue.
pub proof fn lemma_move_keeps_tracks(queue: Seq<MediaItemView>, from: int, to: int)
    requires
        0 <= from < queue.len(),
        0 <= to < queue.len(),
    ensures
        queue.remove(from).insert(to, queue[from]).to_multiset() == queue.to_multiset(),
        queue.remove(from).insert(to, queue[from]).len() == queue.len(),
{
    broadcast use vstd::seq_lib::group_to_multiset_ensures;
    let r = queue.remove(from);
    assert(queue =~= queue.subrange(0, from) + seq![queue[from]] + queue.subrange(from + 1, queue.len() as int));
    assert(r =~= queue.subrange(0, from) + queue.subrange(from + 1, queue.len() as int));
    assert(r.insert(to, queue[from]) =~= r.subrange(0, to) + seq![queue[from]] + r.subrange(to, r.len() as int));
    vstd::seq_lib::lemma_multiset_commutative(queue.subrange(0, from), seq![queue[from]]);
    vstd::seq_lib::lemma_multiset_commutative(queue.subrange(0, from) + seq![queue[from]], queue.subrange(from + 1, queue.len() as int));
    vstd::seq_lib::lemma_multiset_commutative(queue.subrange(0, from), queue.subrange(from + 1, queue.len() as int));
    vstd::seq_lib::lemma_multiset_commutative(r.subrange(0, to), seq![queue[from]]);
    vstd::seq_lib::lemma_multiset_commutative(r.subrange(0, to) + seq![queue[from]], r.subrange(to, r.len() as int));
    vstd::seq_lib::lemma_multiset_commutative(r.subrange(0, to), r.subrange(to, r.len() as int));
    assert(r =~= r.subrange(0, to) + r.subrange(to, r.len() as int));
}


proof fn lemma_insert_position(sorted: Seq<int>, counts: Seq<u64>, x: int)
    ensures
        0 <= insert_position(sorted, counts, x) <= sorted.len(),
        forall|k: int|
            0 <= k < insert_position(sorted, counts, x) ==> counts[sorted[k]] >= counts[x],
        insert_position(sorted, counts, x) < sorted.len() ==> counts[x] > counts[sorted[insert_position(
            sorted,
            counts,
            x,
        )]],
    decreases sorted.len(),
{
    if sorted.len() > 0 && !(counts[x] > counts[sorted[0]]) {
        lemma_insert_position(sorted.drop_first(), counts, x);
        let p = insert_position(sorted.drop_first(), counts, x);
        assert forall|k: int| 0 <= k < p + 1 implies counts[sorted[k]] >= counts[x] by {
            if k > 0 {
                assert(sorted[k] == sorted.drop_first()[k - 1]);
            }
        }
        if p < sorted.drop_first().len() {
            assert(sorted[p + 1] == sorted.drop_first()[p]);
        }
    }
}

/// The Most Played list holds every played track exactly once (and no other), most
/// played first, ties in library order.
pub proof fn lemma_most_played_order(counts: Seq<u64>, n: int)
    requires
        0 <= n <= counts.len(),
    ensures
        by_plays(counts, n).no_duplicates(),
        forall|k: int| 0 <= k < by_plays(counts, n).len() ==> 0 <= #[trigger] by_plays(counts, n)[k] < n,
        forall|i: int| 0 <= i < n ==> (counts[i] > 0 <==> by_plays(counts, n).contains(i)),
        forall|a: int, b: int|
            0 <= a < b < by_plays(counts, n).len() ==> played_before(
                counts,
                #[trigger] by_plays(counts, n)[a],
                #[trigger] by_plays(counts, n)[b],
            ),
    decreases n,
{
    if n > 0 {
        lemma_most_played_order(counts, n - 1);
        let prev = by_plays(counts, n - 1);
        let x = n - 1;
        if counts[x] > 0 {
            lemma_insert_position(prev, counts, x);
            let p = insert_position(prev, counts, x);
            let r = prev.insert(p, x);
            assert(r == by_plays(counts, n));
            assert forall|k: int| 0 <= k < r.len() implies 0 <= #[trigger] r[k] < n by {
                if k < p {
                    assert(r[k] == prev[k]);
                } else if k > p {
                    assert(r[k] == prev[k - 1]);
                }
            }
            assert forall|a: int, b: int| 0 <= a < b < r.len() implies #[trigger] r[a] != #[trigger] r[b] by {
                if a < p && b < p {
                    assert(r[a] == prev[a] && r[b] == prev[b]);
                } else if a < p && b == p {
                    assert(r[a] == prev[a]);
                } else if a < p && b > p {
                    assert(r[a] == prev[a] && r[b] == prev[b - 1]);
                } else if a == p {
                    assert(r[b] == prev[b - 1]);
                } else {
                    assert(r[a] == prev[a - 1] && r[b] == prev[b - 1]);
                }
            }
            assert(r.no_duplicates());
            assert forall|i: int| 0 <= i < n implies (counts[i] > 0 <==> r.contains(i)) by {
                if i < x {
                    if prev.contains(i) {
                        let q = choose|q: int| 0 <= q < prev.len() && prev[q] == i;
                        if q < p {
                            assert(r[q] == i);
                        } else {
                            assert(r[q + 1] == i);
                        }
                    }
                    if r.contains(i) {
                        let q = choose|q: int| 0 <= q < r.len() && r[q] == i;
                        if q < p {
                            assert(prev[q] == i);
                        } else if q > p {
                            assert(prev[q - 1] == i);
                        }
                    }
                } else {
                    assert(r[p] == x);
                }
            }
            // counts never increase along the previous order
            assert forall|a: int, b: int| 0 <= a < b < prev.len() implies counts[prev[a]] >= counts[prev[b]] by {
                assert(played_before(counts, prev[a], prev[b]));
            }
            assert forall|a: int, b: int| 0 <= a < b < r.len() implies played_before(
                counts,
                #[trigger] r[a],
                #[trigger] r[b],
            ) by {
                if a < p && b < p {
                    assert(r[a] == prev[a] && r[b] == prev[b]);
                } else if a < p && b == p {
                    assert(r[a] == prev[a]);
                    assert(counts[prev[a]] >= counts[x]);
                    assert(prev[a] < x);
                } else if a < p && b > p {
                    assert(r[a] == prev[a] && r[b] == prev[b - 1]);
                } else if a == p {
                    assert(r[b] == prev[b - 1]);
                    assert(counts[x] > counts[prev[p]]);
                    if b - 1 > p {
                        assert(counts[prev[p]] >= counts[prev[b - 1]]);
                    }
                } else {
                    assert(r[a] == prev[a - 1] && r[b] == prev[b - 1]);
                }
            }
        } else {
            assert forall|k: int| 0 <= k < prev.len() implies 0 <= #[trigger] prev[k] < n by {}
        }
    }
}


/// Without shuffle, playback follows the queue: after the track at position `current` comes
/// the next position; after the last one the queue finishes under repeat Off and starts
/// over at the first position under repeat All. Repeat One plays the same position again,
/// and an empty queue stays as it is.
pub proof fn lemma_queue_advance_follows_queue(v: ProviderView, current: int)
    requires
        0 <= current < v.snapshot.queue.len(),
    ensures
        v.snapshot.repeat_mode == RepeatMode::One ==> advance_step(v, current) == Ok::<Step, Seq<char>>(
            Step::Select(current as usize),
        ),
        !v.snapshot.shuffle_enabled && v.snapshot.repeat_mode != RepeatMode::One && current + 1
            < v.snapshot.queue.len() ==> advance_step(v, current) == Ok::<Step, Seq<char>>(
            Step::Select((current + 1) as usize),
        ),
        !v.snapshot.shuffle_enabled && v.snapshot.repeat_mode == RepeatMode::Off && current + 1
            == v.snapshot.queue.len() ==> advance_step(v, current) == Ok::<Step, Seq<char>>(
            Step::Finish,
        ),
        !v.snapshot.shuffle_enabled && v.snapshot.repeat_mode == RepeatMode::All && current + 1
            == v.snapshot.queue.len() ==> advance_step(v, current) == Ok::<Step, Seq<char>>(
            Step::Select(0),
        ),
{
}

/// An empty queue has nothing to advance to.
pub proof fn lemma_empty_queue_stays(v: ProviderView, current: int)
    requires
        v.snapshot.queue.len() == 0,
    ensures
        advance_step(v, current) == Ok::<Step, Seq<char>>(Step::Stay),
{
}

/// With shuffle on and repeat Off or All, playback follows the shuffle order: after the
/// track at shuffle position `i`, the queue entry of the track at `i + 1` is selected.
/// After the last shuffled track the queue finishes under repeat Off; only repeat All
/// starts over at the first shuffled track.
pub proof fn lemma_shuffle_advance_follows_order(v: ProviderView, current: int, i: int, q: int)
    requires
        v.snapshot.queue.len() > 0,
        v.snapshot.shuffle_enabled,
        v.snapshot.repeat_mode != RepeatMode::One,
        v.snapshot.current_item matches Some(c) && 0 <= i < v.shuffle_order.len()
            && v.shuffle_order[i] == c.id && forall|k: int| 0 <= k < i ==> v.shuffle_order[k] != c.id,
    ensures
        i == v.shuffle_order.len() - 1 && v.snapshot.repeat_mode == RepeatMode::Off ==> advance_step(
            v,
            current,
        ) == Ok::<Step, Seq<char>>(Step::Finish),
        ({
            let target = if i + 1 < v.shuffle_order.len() {
                v.shuffle_order[i + 1]
            } else {
                v.shuffle_order[0]
            };
            (i + 1 < v.shuffle_order.len() || v.snapshot.repeat_mode == RepeatMode::All) && 0 <= q
                < v.snapshot.queue.len() && v.snapshot.queue[q].id == target && (forall|k: int|
                0 <= k < q ==> v.snapshot.queue[k].id != target) ==> advance_step(v, current) == Ok::<
                Step,
                Seq<char>,
            >(Step::Select(q as usize))
        }),
{
    let c = v.snapshot.current_item->0;
    assert(first_index(v.shuffle_order, c.id) == Some(i)) by {
        crate::metadata::lemma_first_index_found(v.shuffle_order, c.id, i);
    }
    let target = if i + 1 < v.shuffle_order.len() {
        v.shuffle_order[i + 1]
    } else {
        v.shuffle_order[0]
    };
    let ids = item_ids(v.snapshot.queue);
    if (i + 1 < v.shuffle_order.len() || v.snapshot.repeat_mode == RepeatMode::All) && 0 <= q
        < v.snapshot.queue.len() && v.snapshot.queue[q].id == target && (forall|k: int|
        0 <= k < q ==> v.snapshot.queue[k].id != target) {
        assert(ids[q] == target);
        crate::metadata::lemma_first_index_found(ids, target, q);
        let j = first_index(ids, target)->0;
        if j < q {
            assert(v.snapshot.queue[j].id == ids[j]);
        }
        assert(first_index(ids, target) == Some(q));
    }
}

/// Play next puts the track right after the current one: the current track stays current,
/// and the queue entry that follows it is the queued track. Without a current track the
/// queued track comes first.
pub proof fn lemma_queued_next_follows_current(
    s: PlaybackSnapshotView,
    id: Seq<char>,
    item: MediaItemView,
    c: MediaItemView,
)
    requires
        item.id == id,
    ensures
        ({
            let r = queued_next(s, id, item);
            &&& r.current_item == s.current_item
            &&& (s.current_item == Some(c) && c.id != id && exists|k: int|
                0 <= k < s.queue.len() && s.queue[k].id == c.id) ==> (current_position(r) matches Some(
                p) && 0 <= p && p + 1 < r.queue.len() && r.queue[p + 1] == item && r.queue[p].id == c.id)
            &&& s.current_item is None ==> r.queue.len() > 0 && r.queue[0] == item
        }),
{
    let pred = |x: MediaItemView| x.id != id;
    let rest = with_queue(s, queue_without(s.queue, id));
    let r = queued_next(s, id, item);
    if s.current_item is None {
        assert(current_position(rest) is None);
        assert(r.queue == rest.queue.insert(0, item));
    }
    if s.current_item == Some(c) && c.id != id && (exists|k: int|
        0 <= k < s.queue.len() && s.queue[k].id == c.id) {
        let k = choose|k: int| 0 <= k < s.queue.len() && s.queue[k].id == c.id;
        s.queue.lemma_filter_contains(pred, k);
        let kept = rest.queue;
        assert(kept.contains(s.queue[k]));
        let m = choose|m: int| 0 <= m < kept.len() && kept[m] == s.queue[k];
        let ids = item_ids(kept);
        assert(ids[m] == c.id);
        crate::metadata::lemma_first_index_found(ids, c.id, m);
        let p = first_index(ids, c.id)->0;
        assert(current_position(rest) == Some(p));
        assert(r.queue == kept.insert(p + 1, item));
        let rids = item_ids(r.queue);
        assert(rids[p] == c.id);
        assert forall|j: int| 0 <= j < p implies rids[j] != c.id by {
            assert(rids[j] == ids[j]);
        }
        assert(first_index(rids, c.id) == Some(p)) by {
            crate::metadata::lemma_first_index_found(rids, c.id, p);
            let j = first_index(rids, c.id)->0;
            if j < p {
                assert(rids[j] != c.id);
            }
        }
    }
}

} // verus!
