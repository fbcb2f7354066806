use crate::model::ArtistRef;
use rand::seq::SliceRandom;
use std::collections::VecDeque;
use vstd::prelude::*;

verus! {

pub open spec fn strings_view(v: Seq<String>) -> Seq<Seq<char>> {
    v.map_values(|s: String| s@)
}

/// The play queue: the tracks of the source being played (`uris`), the order they
/// play in (`order`, indices into `uris`), the place in that order, the tracks the
/// user queued to play next, and a queued track that is playing in between.
#[derive(Debug, Clone)]
pub struct Queue {
    pub source: String,
    pub uris: Vec<String>,
    pub order: Vec<usize>,
    pub position: usize,
    pub shuffled: bool,
    pub up_next: VecDeque<String>,
    pub detour: Option<String>,
}

pub struct QueueView {
    pub source: Seq<char>,
    pub uris: Seq<Seq<char>>,
    pub order: Seq<usize>,
    pub position: nat,
    pub shuffled: bool,
    pub up_next: Seq<Seq<char>>,
    pub detour: Option<Seq<char>>,
}

impl View for Queue {
    type V = QueueView;

    open spec fn view(&self) -> QueueView {
        QueueView {
            source: self.source@,
            uris: strings_view(self.uris@),
            order: self.order@,
            position: self.position as nat,
            shuffled: self.shuffled,
            up_next: strings_view(self.up_next@),
            detour: match self.detour {
                Some(d) => Some(d@),
                None => None,
            },
        }
    }
}

/// `order` holds each index below `n` exactly once.
pub open spec fn is_permutation(order: Seq<usize>, n: nat) -> bool {
    &&& order.len() == n
    &&& forall|i: int| 0 <= i < order.len() ==> #[trigger] order[i] < n
    &&& forall|i: int, j: int|
        0 <= i < j < order.len() ==> #[trigger] order[i] != #[trigger] order[j]
}

impl QueueView {
    /// The queue's invariant: the order is a permutation of the source's tracks and
    /// the position lies in it (or is 0 when it is empty).
    pub open spec fn wf(self) -> bool {
        &&& is_permutation(self.order, self.uris.len())
        &&& if self.order.len() == 0 {
            self.position == 0
        } else {
            self.position < self.order.len()
        }
    }

    /// The source's tracks in the order they play.
    pub open spec fn ordered(self) -> Seq<Seq<char>> {
        Seq::new(self.order.len(), |i: int| self.uris[self.order[i] as int])
    }

    /// The track at `position` in the play order.
    pub open spec fn at(self, position: int) -> Option<Seq<char>> {
        if 0 <= position < self.order.len() && self.order[position] < self.uris.len() {
            Some(self.uris[self.order[position] as int])
        } else {
            None
        }
    }

    /// What is playing: the queued track in between, else the track at the position.
    pub open spec fn current(self) -> Option<Seq<char>> {
        match self.detour {
            Some(d) => Some(d),
            None => self.at(self.position as int),
        }
    }
}

pub open spec fn opt_string_view(s: Option<String>) -> Option<Seq<char>> {
    match s {
        Some(t) => Some(t@),
        None => None,
    }
}

/// A queue with no source and no tracks.
pub open spec fn empty_queue() -> QueueView {
    QueueView {
        source: Seq::empty(),
        uris: Seq::empty(),
        order: Seq::empty(),
        position: 0,
        shuffled: false,
        up_next: Seq::empty(),
        detour: None,
    }
}

impl Queue {
    /// An empty queue.
    pub fn new() -> (r: Queue)
        ensures
            r@ == empty_queue(),
            r@.wf(),
            r@.uris.len() == 0,
            r@.up_next.len() == 0,
            r@.detour is None,
            r@.source.len() == 0,
            !r@.shuffled,
    {
        let r = Queue {
            source: String::new(),
            uris: Vec::new(),
            order: Vec::new(),
            position: 0,
            shuffled: false,
            up_next: VecDeque::new(),
            detour: None,
        };
        assert(r@.uris =~= seq![]);
        assert(r@.up_next =~= seq![]);
        assert(r@.source =~= Seq::<char>::empty());
        assert(r@.order =~= Seq::<usize>::empty());
        r
    }

    /// The track at `position` in the play order, if there is one.
    pub fn at(&self, position: usize) -> (r: Option<String>)
        ensures
            opt_string_view(r) == self@.at(position as int),
    {
        if position < self.order.len() {
            let index = self.order[position];
            if index < self.uris.len() {
                return Some(self.uris[index].clone());
            }
        }
        None
    }

    /// What is playing: the queued track in between, else the track at the position.
    pub fn current(&self) -> (r: Option<String>)
        ensures
            opt_string_view(r) == self@.current(),
    {
        match &self.detour {
            Some(d) => Some(d.clone()),
            None => self.at(self.position),
        }
    }

    /// Plays the first queued track in between; whether there was one.
    pub fn take_up_next(&mut self) -> (r: bool)
        ensures
            r == (old(self)@.up_next.len() > 0),
            r ==> final(self)@ == (QueueView {
                detour: Some(old(self)@.up_next[0]),
                up_next: old(self)@.up_next.drop_first(),
                ..old(self)@
            }),
            !r ==> final(self)@ == (QueueView { detour: None, ..old(self)@ }),
    {
        self.detour = self.up_next.pop_front();
        proof {
            assert(strings_view(self.up_next@) =~= strings_view(old(self).up_next@).drop_first()
                || old(self).up_next@.len() == 0);
        }
        self.detour.is_some()
    }

    /// Takes the track `offset` places after the position out of the play order
    /// (and out of the source), if there is one.
    pub fn take_ahead(&mut self, offset: usize) -> (r: Option<String>)
        requires
            old(self)@.wf(),
        ensures
            final(self)@.wf(),
            old(self)@.position + 1 + offset < old(self)@.order.len() ==> ({
                let p = old(self)@.position + 1 + offset;
                &&& r is Some
                &&& r->0@ == old(self)@.ordered()[p as int]
                &&& final(self)@.ordered() == old(self)@.ordered().remove(p as int)
                &&& final(self)@.position == old(self)@.position
                &&& final(self)@.up_next == old(self)@.up_next
                &&& final(self)@.detour == old(self)@.detour
                &&& final(self)@.source == old(self)@.source
                &&& final(self)@.shuffled == old(self)@.shuffled
            }),
            old(self)@.position + 1 + offset >= old(self)@.order.len() ==> r is None,
            old(self)@.position + 1 + offset >= old(self)@.order.len() ==> final(self)@ == old(self)@,
    {
        let n = self.order.len();
        if n <= self.position + 1 || offset >= n - self.position - 1 {
            return None;
        }
        let position = self.position + 1 + offset;
        let ghost q = self@;
        let ghost old_uris = self.uris@;
        let index = self.order.remove(position);
        let uri = self.uris.remove(index);
        assert(strings_view(self.uris@) =~= strings_view(old_uris).remove(index as int));
        let m = self.order.len();
        let ghost removed = self.order@;
        let mut order: Vec<usize> = Vec::new();
        for k in 0..m
            invariant
                m == self.order@.len(),
                removed == self.order@,
                order@.len() == k,
                forall|j: int|
                    0 <= j < k ==> #[trigger] order@[j] == if removed[j] > index {
                        (removed[j] - 1) as usize
                    } else {
                        removed[j]
                    },
        {
            let slot = self.order[k];
            if slot > index {
                order.push(slot - 1);
            } else {
                order.push(slot);
            }
        }
        self.order = order;
        proof {
            lemma_take_ahead(q, position as int, self@);
            assert(uri@ == q.ordered()[position as int]);
        }
        Some(uri)
    }

    /// Puts `uri` into the play order `offset` places after the position (or at its
    /// end, when that lies past it).
    pub fn put_ahead(&mut self, offset: usize, uri: String)
        requires
            old(self)@.wf(),
            old(self)@.uris.len() < usize::MAX,
        ensures
            final(self)@.wf(),
            ({
                let p = min_int(old(self)@.position + 1 + offset, old(self)@.order.len() as int);
                final(self)@.ordered() == old(self)@.ordered().insert(p, uri@)
            }),
            final(self)@.position == old(self)@.position,
            final(self)@.up_next == old(self)@.up_next,
            final(self)@.detour == old(self)@.detour,
            final(self)@.source == old(self)@.source,
            final(self)@.shuffled == old(self)@.shuffled,
    {
        let n = self.order.len();
        let position = if self.position < n && offset < n - self.position - 1 {
            self.position + 1 + offset
        } else {
            n
        };
        let ghost q = self@;
        let ghost u = uri@;
        let ghost old_uris = self.uris@;
        self.uris.push(uri);
        assert(strings_view(self.uris@) =~= strings_view(old_uris).push(u));
        let last = self.uris.len() - 1;
        self.order.insert(position, last);
        proof {
            lemma_put_ahead(q, position as int, u, self@);
        }
    }
}

pub open spec fn min_int(a: int, b: int) -> int {
    if a <= b {
        a
    } else {
        b
    }
}

proof fn lemma_take_ahead(q: QueueView, p: int, r: QueueView)
    requires
        q.wf(),
        q.position < p < q.order.len(),
        r.uris == q.uris.remove(q.order[p] as int),
        r.order.len() == q.order.len() - 1,
        forall|j: int|
            0 <= j < r.order.len() ==> #[trigger] r.order[j] == if q.order.remove(p)[j]
                > q.order[p] {
                (q.order.remove(p)[j] - 1) as usize
            } else {
                q.order.remove(p)[j]
            },
        r.position == q.position,
    ensures
        r.wf(),
        r.ordered() == q.ordered().remove(p),
{
    let index = q.order[p];
    let removed = q.order.remove(p);
    let n = q.uris.len();
    assert forall|j: int| 0 <= j < removed.len() implies #[trigger] removed[j] != index by {
        if j < p {
            assert(removed[j] == q.order[j]);
        } else {
            assert(removed[j] == q.order[j + 1]);
        }
    }
    assert forall|i: int, j: int|
        0 <= i < j < r.order.len() implies #[trigger] r.order[i] != #[trigger] r.order[j] by {
        let oi = if i < p {
            i
        } else {
            i + 1
        };
        let oj = if j < p {
            j
        } else {
            j + 1
        };
        assert(removed[i] == q.order[oi]);
        assert(removed[j] == q.order[oj]);
        assert(q.order[oi] != q.order[oj]);
    }
    assert forall|i: int| 0 <= i < r.order.len() implies #[trigger] r.order[i] < n - 1 by {
        let oi = if i < p {
            i
        } else {
            i + 1
        };
        assert(removed[i] == q.order[oi]);
    }
    assert(r.ordered() =~= q.ordered().remove(p)) by {
        assert forall|i: int| 0 <= i < r.order.len() implies r.ordered()[i] == q.ordered().remove(
            p,
        )[i] by {
            let oi = if i < p {
                i
            } else {
                i + 1
            };
            assert(removed[i] == q.order[oi]);
            assert(removed[i] != index);
        }
    }
}

proof fn lemma_put_ahead(q: QueueView, p: int, u: Seq<char>, r: QueueView)
    requires
        q.wf(),
        q.position < p <= q.order.len() || (q.order.len() == 0 && p == 0),
        q.uris.len() < usize::MAX,
        r.uris == q.uris.push(u),
        r.order == q.order.insert(p, q.uris.len() as usize),
        r.position == q.position,
    ensures
        r.wf(),
        r.ordered() == q.ordered().insert(p, u),
{
    let n = q.uris.len();
    assert forall|i: int| 0 <= i < r.order.len() implies #[trigger] r.order[i] < n + 1 by {
        if i < p {
            assert(r.order[i] == q.order[i]);
        } else if i > p {
            assert(r.order[i] == q.order[i - 1]);
        }
    }
    assert forall|i: int, j: int|
        0 <= i < j < r.order.len() implies #[trigger] r.order[i] != #[trigger] r.order[j] by {
        if i != p && j != p {
            let oi = if i < p {
                i
            } else {
                i - 1
            };
            let oj = if j < p {
                j
            } else {
                j - 1
            };
            assert(r.order[i] == q.order[oi]);
            assert(r.order[j] == q.order[oj]);
        } else if i == p {
            assert(r.order[j] == q.order[j - 1]);
            assert(q.order[j - 1] < n);
        } else {
            assert(r.order[i] == q.order[i]);
            assert(q.order[i] < n);
        }
    }
    assert(r.ordered() =~= q.ordered().insert(p, u)) by {
        assert forall|i: int| 0 <= i < r.order.len() implies r.ordered()[i] == q.ordered().insert(
            p,
            u,
        )[i] by {
            if i < p {
                assert(r.order[i] == q.order[i]);
                assert(q.order[i] < n);
            } else if i > p {
                assert(r.order[i] == q.order[i - 1]);
                assert(q.order[i - 1] < n);
            } else {
                assert(r.order[i] == n);
            }
        }
    }
}

} // verus!

verus! {

/// Calls `SliceRandom::shuffle` of `rand` with the thread's generator on `values`.
/// The order that comes out depends on chance; what holds of every outcome is that
/// it holds the same values as many times each (a permutation).
#[verifier::external_body]
pub(crate) fn shuffled(values: Vec<usize>) -> (r: Vec<usize>)
    ensures
        r@.to_multiset() == values@.to_multiset(),
{
    let mut values = values;
    values.shuffle(&mut rand::rng());
    values
}

/// How playback continues at the end of a track.
#[derive(Debug, Clone, Copy, PartialEq, Eq, Structural)]
pub enum Repeat {
    Off,
    Context,
    Track,
}

impl Default for Repeat {
    fn default() -> (r: Repeat)
        ensures
            r == Repeat::Off,
    {
        Repeat::Off
    }
}

/// A place in the queue: a position among the queued tracks, or an offset after the
/// current track in the play order.
#[derive(Debug, Clone, Copy, PartialEq, Eq, Structural)]
pub enum Slot {
    Queued(usize),
    Ahead(usize),
}

/// What the UI learns of playback.
#[derive(Debug, Clone)]
pub enum Event {
    Loading { uri: String },
    Playing { uri: String, position_ms: u32 },
    Paused { uri: String, position_ms: u32 },
    Position { uri: String, position_ms: u32 },
    TrackChanged {
        uri: String,
        name: String,
        artists: Vec<ArtistRef>,
        duration_ms: u32,
        cover_id: Option<String>,
    },
    QueueChanged { index: usize, length: usize },
    UpNextChanged,
    ShuffleChanged { shuffle: bool },
    RepeatChanged { repeat: Repeat },
    Volume { volume: u16 },
    Connection { online: bool },
    Stopped,
}

/// What the player has to do after a decision: tell the UI, load the current
/// track, drive the player, or restore the session.
#[derive(Debug, Clone)]
pub enum Effect {
    Emit(Event),
    Load,
    Play,
    Pause,
    Stop,
    Seek(u32),
    Flush,
    Preload(String),
    Reconnect,
    SetVolume(u16),
}

/// A cover of the track that started: its width and its url.
#[derive(Debug, Clone)]
pub struct Cover {
    pub width: u32,
    pub url: String,
}

/// What the player reports.
#[derive(Debug, Clone)]
pub enum PlayerEvent {
    Loading { uri: String },
    Playing { uri: String, position_ms: u32 },
    Paused { uri: String, position_ms: u32 },
    /// A position change, a position correction or a seek.
    Position { uri: String, position_ms: u32 },
    TrackChanged {
        uri: String,
        name: String,
        artists: Vec<ArtistRef>,
        duration_ms: u32,
        covers: Vec<Cover>,
    },
    EndOfTrack,
    Unavailable { uri: String },
    TimeToPreloadNextTrack,
    VolumeChanged { volume: u16 },
    Stopped,
    Other,
}

/// What the UI shows of the queue.
#[derive(Debug, Clone)]
pub struct Snapshot {
    pub current: Option<String>,
    pub up_next: Vec<String>,
    pub source: String,
    pub ahead: Vec<String>,
    pub ahead_from: usize,
}

/// Playback as the player's decisions see it: the queue, the repeat mode and what
/// the player last reported.
#[derive(Debug)]
pub struct Playback {
    pub queue: Queue,
    pub repeat: Repeat,
    pub playing: bool,
    pub stopped: bool,
    pub position_ms: u32,
}

/// Restarting the current track rather than going back takes this much progress.
pub const RESTART_THRESHOLD_MS: u32 = 3000;

/// The indices below `n` other than `current`, in order.
pub open spec fn others(n: nat, current: usize) -> Seq<usize> {
    Seq::new((n - 1) as nat, |i: int| if i < current { i as usize } else { (i + 1) as usize })
}

pub open spec fn identity(n: nat) -> Seq<usize> {
    Seq::new(n, |i: int| i as usize)
}

impl Playback {
    pub open spec fn wf(&self) -> bool {
        self.queue@.wf() && self.queue@.uris.len() < usize::MAX
    }

    /// Nothing to play yet.
    pub fn new() -> (r: Playback)
        ensures
            r.wf(),
            r.queue@.uris.len() == 0,
            r.queue@.up_next.len() == 0,
            r.repeat == Repeat::Off,
            !r.playing,
            !r.stopped,
            r@ == (PlaybackView {
                queue: empty_queue(),
                repeat: Repeat::Off,
                playing: false,
                stopped: false,
                position_ms: 0,
            }),
    {
        Playback {
            queue: Queue::new(),
            repeat: Repeat::Off,
            playing: false,
            stopped: false,
            position_ms: 0,
        }
    }

    /// Plays `uris` from `source`, starting at `index` (or the last track when
    /// `index` lies past it), in their own order; the queued tracks stay.
    pub fn play_queue(&mut self, source: &str, uris: Vec<String>, index: usize) -> (r: Vec<Effect>)
        requires
            uris@.len() < usize::MAX,
        ensures
            same_report(old(self)@, final(self)@),
            final(self).wf(),
            ({
                let n = uris@.len();
                let p = if n == 0 {
                    0
                } else {
                    min_int(index as int, n - 1)
                };
                &&& final(self).queue@.uris == strings_view(uris@)
                &&& final(self).queue@.order == identity(n)
                &&& final(self).queue@.position == p
                &&& final(self).queue@.source == source@
                &&& !final(self).queue@.shuffled
                &&& final(self).queue@.detour is None
                &&& final(self).queue@.up_next == old(self).queue@.up_next
                &&& r@ == seq![
                    Effect::Emit(Event::QueueChanged { index: p as usize, length: n as usize }),
                    Effect::Load,
                ]
            }),
            final(self).repeat == old(self).repeat,
    {
        let length = uris.len();
        let last = if length > 0 {
            length - 1
        } else {
            0
        };
        let position = if index < last {
            index
        } else {
            last
        };
        let mut order: Vec<usize> = Vec::new();
        for i in 0..length
            invariant
                order@ == identity(i as nat),
        {
            order.push(i);
            assert(order@ =~= identity((i + 1) as nat));
        }
        self.queue.source = String::from_str(source);
        self.queue.order = order;
        self.queue.uris = uris;
        self.queue.position = position;
        self.queue.shuffled = false;
        self.queue.detour = None;
        let mut r: Vec<Effect> = Vec::new();
        r.push(Effect::Emit(Event::QueueChanged { index: position, length }));
        r.push(Effect::Load);
        r
    }

    /// The source's tracks in the order they play, and the position among them.
    pub fn queue(&self) -> (r: (Vec<String>, usize))
        requires
            self.wf(),
        ensures
            strings_view(r.0@) == self.queue@.ordered(),
            r.1 == self.queue.position,
    {
        let mut ordered: Vec<String> = Vec::new();
        let n = self.queue.order.len();
        for i in 0..n
            invariant
                n == self.queue@.order.len(),
                self.wf(),
                ordered@.len() == i,
                forall|k: int| 0 <= k < i ==> #[trigger] ordered@[k]@ == self.queue@.ordered()[k],
        {
            let index = self.queue.order[i];
            ordered.push(self.queue.uris[index].clone());
        }
        assert(strings_view(ordered@) =~= self.queue@.ordered());
        (ordered, self.queue.position)
    }

    /// What is playing.
    pub fn current(&self) -> (r: Option<String>)
        ensures
            opt_string_view(r) == self.queue@.current(),
    {
        self.queue.current()
    }

    /// The queue as the UI shows it.
    pub fn snapshot(&self) -> (r: Snapshot)
        requires
            self.wf(),
        ensures
            opt_string_view(r.current) == self.queue@.current(),
            strings_view(r.up_next@) == self.queue@.up_next,
            r.source@ == self.queue@.source,
            r.ahead_from == if self.queue@.order.len() == 0 {
                0
            } else {
                self.queue@.position + 1
            },
            strings_view(r.ahead@) == self.queue@.ordered().skip(r.ahead_from as int),
    {
        let n = self.queue.order.len();
        let ahead_from = if n == 0 {
            0
        } else {
            self.queue.position + 1
        };
        let mut up_next: Vec<String> = Vec::new();
        let m = self.queue.up_next.len();
        for i in 0..m
            invariant
                m == self.queue.up_next@.len(),
                up_next@.len() == i,
                forall|k: int| 0 <= k < i ==> #[trigger] up_next@[k] == self.queue.up_next@[k],
        {
            up_next.push(self.queue.up_next[i].clone());
        }
        assert(strings_view(up_next@) =~= self.queue@.up_next);
        let mut ahead: Vec<String> = Vec::new();
        let mut p = ahead_from;
        while p < n
            invariant
                n == self.queue@.order.len(),
                self.wf(),
                ahead_from <= p <= n || (n == 0 && p == 0),
                ahead_from <= n,
                ahead@.len() == p - ahead_from,
                forall|k: int|
                    0 <= k < ahead@.len() ==> #[trigger] ahead@[k]@ == self.queue@.ordered()[k
                        + ahead_from],
            decreases n - p,
        {
            let index = self.queue.order[p];
            ahead.push(self.queue.uris[index].clone());
            p += 1;
        }
        assert(strings_view(ahead@) =~= self.queue@.ordered().skip(ahead_from as int));
        Snapshot {
            current: self.queue.current(),
            up_next,
            source: self.queue.source.clone(),
            ahead,
            ahead_from,
        }
    }

    /// Queues `uris` to play next, before the tracks already queued.
    pub fn play_next(&mut self, uris: Vec<String>) -> (r: Vec<Effect>)
        requires
            old(self).wf(),
        ensures
            same_report(old(self)@, final(self)@),
            final(self).wf(),
            final(self).queue@ == (QueueView {
                up_next: strings_view(uris@) + old(self).queue@.up_next,
                ..old(self).queue@
            }),
            final(self).repeat == old(self).repeat,
            r@ == seq![Effect::Emit(Event::UpNextChanged)],
    {
        let ghost before = self.queue.up_next@;
        let mut i = uris.len();
        while i > 0
            invariant
                i <= uris@.len(),
                self.queue.up_next@ == uris@.skip(i as int) + before,
                self.repeat == old(self).repeat,
                same_report(old(self)@, self@),
                self.queue@ == (QueueView {
                    up_next: strings_view(self.queue.up_next@),
                    ..old(self).queue@
                }),
            decreases i,
        {
            i -= 1;
            self.queue.up_next.push_front(uris[i].clone());
            assert(self.queue.up_next@ =~= uris@.skip(i as int) + before);
        }
        assert(strings_view(self.queue.up_next@) =~= strings_view(uris@) + old(self).queue@.up_next);
        let mut r: Vec<Effect> = Vec::new();
        r.push(Effect::Emit(Event::UpNextChanged));
        r
    }

    /// Queues `uris` after the tracks already queued.
    pub fn add_to_queue(&mut self, uris: Vec<String>) -> (r: Vec<Effect>)
        requires
            old(self).wf(),
        ensures
            same_report(old(self)@, final(self)@),
            final(self).wf(),
            final(self).queue@ == (QueueView {
                up_next: old(self).queue@.up_next + strings_view(uris@),
                ..old(self).queue@
            }),
            final(self).repeat == old(self).repeat,
            r@ == seq![Effect::Emit(Event::UpNextChanged)],
    {
        let ghost before = self.queue.up_next@;
        let n = uris.len();
        for i in 0..n
            invariant
                n == uris@.len(),
                self.queue.up_next@ == before + uris@.take(i as int),
                self.repeat == old(self).repeat,
                same_report(old(self)@, self@),
                self.queue@ == (QueueView {
                    up_next: strings_view(self.queue.up_next@),
                    ..old(self).queue@
                }),
        {
            self.queue.up_next.push_back(uris[i].clone());
            assert(self.queue.up_next@ =~= before + uris@.take(i + 1));
        }
        assert(uris@.take(n as int) =~= uris@);
        assert(strings_view(self.queue.up_next@) =~= old(self).queue@.up_next + strings_view(uris@));
        let mut r: Vec<Effect> = Vec::new();
        r.push(Effect::Emit(Event::UpNextChanged));
        r
    }

    /// Takes the queued track at `index` out, when there is one.
    pub fn remove_up_next(&mut self, index: usize) -> (r: Vec<Effect>)
        requires
            old(self).wf(),
        ensures
            same_report(old(self)@, final(self)@),
            final(self).wf(),
            final(self).repeat == old(self).repeat,
            index < old(self).queue@.up_next.len() ==> final(self).queue@ == (QueueView {
                up_next: old(self).queue@.up_next.remove(index as int),
                ..old(self).queue@
            }) && r@ == seq![Effect::Emit(Event::UpNextChanged)],
            index >= old(self).queue@.up_next.len() ==> final(self).queue@ == old(self).queue@
                && r@.len() == 0,
    {
        let ghost before = self.queue.up_next@;
        let removed = self.queue.up_next.remove(index);
        let mut r: Vec<Effect> = Vec::new();
        if removed.is_some() {
            assert(strings_view(self.queue.up_next@) =~= strings_view(before).remove(index as int));
            r.push(Effect::Emit(Event::UpNextChanged));
        }
        r
    }

    /// Empties the queued tracks.
    pub fn clear_up_next(&mut self) -> (r: Vec<Effect>)
        requires
            old(self).wf(),
        ensures
            same_report(old(self)@, final(self)@),
            final(self).wf(),
            final(self).repeat == old(self).repeat,
            final(self).queue@ == (QueueView { up_next: seq![], ..old(self).queue@ }),
            r@ == seq![Effect::Emit(Event::UpNextChanged)],
    {
        self.queue.up_next.clear();
        assert(strings_view(self.queue.up_next@) =~= seq![]);
        let mut r: Vec<Effect> = Vec::new();
        r.push(Effect::Emit(Event::UpNextChanged));
        r
    }

    /// Plays the queued track at `index` in between, dropping those before it.
    pub fn play_up_next(&mut self, index: usize) -> (r: Vec<Effect>)
        requires
            old(self).wf(),
        ensures
            same_report(old(self)@, final(self)@),
            final(self).wf(),
            final(self).repeat == old(self).repeat,
            index < old(self).queue@.up_next.len() ==> final(self).queue@ == (QueueView {
                detour: Some(old(self).queue@.up_next[index as int]),
                up_next: old(self).queue@.up_next.skip(index + 1),
                ..old(self).queue@
            }) && r@ == seq![Effect::Emit(Event::UpNextChanged), Effect::Load],
            index >= old(self).queue@.up_next.len() ==> final(self).queue@ == old(self).queue@
                && r@.len() == 0,
    {
        let mut r: Vec<Effect> = Vec::new();
        if index >= self.queue.up_next.len() {
            return r;
        }
        let ghost before = self.queue@.up_next;
        assert(before.skip(0) =~= before);
        let mut k: usize = 0;
        while k < index
            invariant
                k <= index,
                self.repeat == old(self).repeat,
                same_report(old(self)@, self@),
                index < old(self).queue@.up_next.len(),
                self.queue@ == (QueueView { up_next: before.skip(k as int), ..old(self).queue@ }),
                before == old(self).queue@.up_next,
            decreases index - k,
        {
            let ghost prev = self.queue.up_next@;
            self.queue.up_next.pop_front();
            assert(strings_view(self.queue.up_next@) =~= strings_view(prev).skip(1));
            assert(before.skip(k as int).skip(1) =~= before.skip(k + 1));
            k += 1;
        }
        self.queue.take_up_next();
        assert(before.skip(index as int).drop_first() =~= before.skip(index + 1));
        r.push(Effect::Emit(Event::UpNextChanged));
        r.push(Effect::Load);
        r
    }

    /// Plays the track at `position` in the play order, when there is one.
    pub fn jump(&mut self, position: usize) -> (r: Vec<Effect>)
        requires
            old(self).wf(),
        ensures
            same_report(old(self)@, final(self)@),
            final(self).wf(),
            final(self).repeat == old(self).repeat,
            position < old(self).queue@.order.len() ==> final(self).queue@ == (QueueView {
                position: position as nat,
                detour: None,
                ..old(self).queue@
            }) && r@ == seq![
                Effect::Emit(
                    Event::QueueChanged {
                        index: position,
                        length: old(self).queue@.order.len() as usize,
                    },
                ),
                Effect::Load,
            ],
            position >= old(self).queue@.order.len() ==> final(self).queue@ == old(self).queue@
                && r@.len() == 0,
    {
        let mut r: Vec<Effect> = Vec::new();
        let length = self.queue.order.len();
        if position >= length {
            return r;
        }
        self.queue.position = position;
        self.queue.detour = None;
        r.push(Effect::Emit(Event::QueueChanged { index: position, length }));
        r.push(Effect::Load);
        r
    }

    /// Whether the play order is shuffled.
    pub fn shuffle(&self) -> (r: bool)
        ensures
            r == self.queue.shuffled,
    {
        self.queue.shuffled
    }

    pub fn repeat(&self) -> (r: Repeat)
        ensures
            r == self.repeat,
    {
        self.repeat
    }

    pub fn set_repeat(&mut self, repeat: Repeat) -> (r: Vec<Effect>)
        requires
            old(self).wf(),
        ensures
            same_report(old(self)@, final(self)@),
            final(self).wf(),
            final(self).queue == old(self).queue,
            final(self).repeat == repeat,
            r@ == seq![Effect::Emit(Event::RepeatChanged { repeat })],
    {
        self.repeat = repeat;
        let mut r: Vec<Effect> = Vec::new();
        r.push(Effect::Emit(Event::RepeatChanged { repeat }));
        r
    }

    pub fn is_playing(&self) -> (r: bool)
        ensures
            r == self.playing,
    {
        self.playing
    }

    pub fn is_stopped(&self) -> (r: bool)
        ensures
            r == self.stopped,
    {
        self.stopped
    }
}

} // verus!

verus! {

pub struct PlaybackView {
    pub queue: QueueView,
    pub repeat: Repeat,
    pub playing: bool,
    pub stopped: bool,
    pub position_ms: u32,
}

/// The player's own report (playing, stopped, position) is the same in both.
pub open spec fn same_report(a: PlaybackView, b: PlaybackView) -> bool {
    a.playing == b.playing && a.stopped == b.stopped && a.position_ms == b.position_ms
}

impl View for Playback {
    type V = PlaybackView;

    open spec fn view(&self) -> PlaybackView {
        PlaybackView {
            queue: self.queue@,
            repeat: self.repeat,
            playing: self.playing,
            stopped: self.stopped,
            position_ms: self.position_ms,
        }
    }
}

pub open spec fn with_queue(s: PlaybackView, q: QueueView) -> PlaybackView {
    PlaybackView { queue: q, ..s }
}

/// Plays the first queued track in between (or none, when nothing is queued);
/// whether one was taken.
pub open spec fn after_take_up_next(s: PlaybackView) -> (PlaybackView, Seq<Effect>, bool) {
    let q = s.queue;
    if q.up_next.len() > 0 {
        (
            with_queue(
                s,
                QueueView { detour: Some(q.up_next[0]), up_next: q.up_next.drop_first(), ..q },
            ),
            seq![Effect::Emit(Event::UpNextChanged), Effect::Load],
            true,
        )
    } else {
        (with_queue(s, QueueView { detour: None, ..q }), seq![], false)
    }
}

/// Moves one place forward or back in the play order, when that stays in it.
pub open spec fn after_step(s: PlaybackView, forward: bool) -> (PlaybackView, Seq<Effect>, bool) {
    let q = s.queue;
    let target: int = if forward {
        q.position as int + 1
    } else {
        q.position - 1
    };
    if 0 <= target < q.order.len() {
        (
            with_queue(s, QueueView { position: target as nat, detour: None, ..q }),
            seq![
                Effect::Emit(
                    Event::QueueChanged { index: target as usize, length: q.order.len() as usize },
                ),
                Effect::Load,
            ],
            true,
        )
    } else {
        (s, seq![], false)
    }
}

/// Repeating the track turns into repeating the context when the user skips.
pub open spec fn after_demote(s: PlaybackView) -> (PlaybackView, Seq<Effect>) {
    if s.repeat == Repeat::Track {
        (
            PlaybackView { repeat: Repeat::Context, ..s },
            seq![Effect::Emit(Event::RepeatChanged { repeat: Repeat::Context })],
        )
    } else {
        (s, seq![])
    }
}

/// Skips forward: the next queued track, else the next in the play order, else stop.
pub open spec fn spec_next(s: PlaybackView) -> (PlaybackView, Seq<Effect>) {
    let (s1, e1) = after_demote(s);
    let (s2, e2, took) = after_take_up_next(s1);
    if took {
        (s2, e1 + e2)
    } else {
        let (s3, e3, stepped) = after_step(s2, true);
        if stepped {
            (s3, e1 + e3)
        } else {
            (s3, e1 + seq![Effect::Stop])
        }
    }
}

/// Goes back: restarts the track when it has played past the threshold, else leaves
/// a queued track playing in between, else steps back, else restarts.
pub open spec fn spec_previous(s: PlaybackView) -> (PlaybackView, Seq<Effect>) {
    if s.position_ms > RESTART_THRESHOLD_MS {
        (s, seq![Effect::Seek(0)])
    } else {
        let (s1, e1) = after_demote(s);
        if s1.queue.detour is Some {
            (with_queue(s1, QueueView { detour: None, ..s1.queue }), e1 + seq![Effect::Load])
        } else {
            let (s2, e2, stepped) = after_step(s1, false);
            if stepped {
                (s2, e1 + e2)
            } else {
                (s2, e1 + seq![Effect::Seek(0)])
            }
        }
    }
}

/// What happens when a track ends: repeat it, else play a queued track, else go on
/// in the play order (wrapping around when repeating the context), else stop.
pub open spec fn spec_advance(s: PlaybackView) -> (PlaybackView, Seq<Effect>) {
    if s.repeat == Repeat::Track {
        (s, seq![Effect::Load])
    } else {
        let (s1, e1, took) = after_take_up_next(s);
        if took {
            (s1, e1)
        } else {
            let (s2, e2, stepped) = after_step(s1, true);
            if stepped {
                (s2, e2)
            } else if s.repeat == Repeat::Context {
                (
                    with_queue(s2, QueueView { position: 0, detour: None, ..s2.queue }),
                    seq![
                        Effect::Emit(
                            Event::QueueChanged { index: 0, length: s2.queue.order.len() as usize },
                        ),
                        Effect::Load,
                    ],
                )
            } else {
                (s2, seq![Effect::Stop])
            }
        }
    }
}

/// Starts playing: a queued track when nothing is current, the current track again
/// when the player stopped, else resumes.
pub open spec fn spec_play(s: PlaybackView) -> (PlaybackView, Seq<Effect>) {
    if s.queue.current() is None {
        let (s1, e1, _) = after_take_up_next(s);
        (s1, e1)
    } else if s.stopped {
        (s, seq![Effect::Load])
    } else {
        (s, seq![Effect::Play])
    }
}

/// The track to preload: the first queued one, else the next in the play order, else
/// (when repeating the context) the first.
pub open spec fn spec_upcoming(s: PlaybackView) -> Option<Seq<char>> {
    if s.queue.up_next.len() > 0 {
        Some(s.queue.up_next[0])
    } else if s.queue.at(s.queue.position as int + 1) is Some {
        s.queue.at(s.queue.position as int + 1)
    } else if s.repeat == Repeat::Context {
        s.queue.at(0)
    } else {
        None
    }
}

pub open spec fn is_hex_char(c: char) -> bool {
    ('0' <= c <= '9') || ('a' <= c <= 'f') || ('A' <= c <= 'F')
}

/// The part of `url` after its last `'/'` (all of it when it has none).
pub open spec fn last_segment(url: Seq<char>) -> Seq<char>
    decreases url.len(),
{
    if url.len() == 0 {
        seq![]
    } else if url.last() == '/' {
        seq![]
    } else {
        last_segment(url.drop_last()).push(url.last())
    }
}

/// The index of the widest cover; the last of equally wide ones.
pub open spec fn widest(covers: Seq<Cover>, k: int) -> bool {
    0 <= k < covers.len() && (forall|j: int|
        0 <= j < covers.len() ==> (#[trigger] covers[j]).width <= covers[k].width) && (forall|
        j: int,
    |
        k < j < covers.len() ==> (#[trigger] covers[j]).width < covers[k].width)
}

/// The cover id of a track: the last segment of the widest cover's url when it is
/// 40 hexadecimal digits.
pub open spec fn spec_cover_id(covers: Seq<Cover>, r: Option<Seq<char>>) -> bool {
    if covers.len() == 0 {
        r is None
    } else {
        exists|k: int|
            widest(covers, k) && {
                let id = last_segment(covers[k].url@);
                if id.len() == 40 && forall|i: int| 0 <= i < 40 ==> is_hex_char(#[trigger] id[i]) {
                    r == Some(id)
                } else {
                    r is None
                }
            }
    }
}

fn last_segment_of(url: &String) -> (r: Vec<char>)
    ensures
        r@ == last_segment(url@),
{
    let chars = crate::text::chars_of(url.as_str());
    let mut out: Vec<char> = Vec::new();
    let n = chars.len();
    for i in 0..n
        invariant
            n == chars@.len(),
            chars@ == url@,
            out@ == last_segment(chars@.take(i as int)),
    {
        proof {
            assert(chars@.take(i + 1).drop_last() =~= chars@.take(i as int));
            assert(chars@.take(i + 1).last() == chars@[i as int]);
        }
        if chars[i] == '/' {
            out = Vec::new();
            assert(out@ =~= last_segment(chars@.take(i + 1)));
        } else {
            out.push(chars[i]);
        }
    }
    assert(chars@.take(n as int) =~= chars@);
    out
}

/// The cover id of the track that started, from its covers.
pub fn cover_id(covers: &Vec<Cover>) -> (r: Option<String>)
    ensures
        spec_cover_id(covers@, opt_string_view(r)),
{
    let n = covers.len();
    if n == 0 {
        return None;
    }
    let mut best: usize = 0;
    for i in 1..n
        invariant
            n == covers@.len(),
            best < i,
            forall|j: int| 0 <= j < i ==> (#[trigger] covers@[j]).width <= covers@[best as int].width,
            forall|j: int| best < j < i ==> (#[trigger] covers@[j]).width < covers@[best as int].width,
    {
        if covers[i].width >= covers[best].width {
            best = i;
        }
    }
    assert(widest(covers@, best as int));
    let id = last_segment_of(&covers[best].url);
    if id.len() != 40 {
        return None;
    }
    for i in 0..40usize
        invariant
            id@.len() == 40,
            forall|k: int| 0 <= k < i ==> is_hex_char(#[trigger] id@[k]),
            id@ == last_segment(covers@[best as int].url@),
            widest(covers@, best as int),
    {
        let c = id[i];
        if !(('0' <= c && c <= '9') || ('a' <= c && c <= 'f') || ('A' <= c && c <= 'F')) {
            assert(!is_hex_char(id@[i as int]));
            return None;
        }
    }
    Some(crate::text::string_from_chars(id.as_slice()))
}

} // verus!

verus! {

impl Playback {
    fn take_up_next(&mut self) -> (r: (bool, Vec<Effect>))
        requires
            old(self).wf(),
        ensures
            final(self).wf(),
            (final(self)@, r.1@, r.0) == after_take_up_next(old(self)@),
    {
        let taken = self.queue.take_up_next();
        let mut e: Vec<Effect> = Vec::new();
        if taken {
            e.push(Effect::Emit(Event::UpNextChanged));
            e.push(Effect::Load);
        }
        (taken, e)
    }

    fn step(&mut self, forward: bool) -> (r: (bool, Vec<Effect>))
        requires
            old(self).wf(),
        ensures
            final(self).wf(),
            (final(self)@, r.1@, r.0) == after_step(old(self)@, forward),
    {
        let mut e: Vec<Effect> = Vec::new();
        let length = self.queue.order.len();
        let target = if forward {
            if self.queue.position + 1 < length {
                self.queue.position + 1
            } else {
                return (false, e);
            }
        } else {
            if self.queue.position > 0 {
                self.queue.position - 1
            } else {
                return (false, e);
            }
        };
        self.queue.position = target;
        self.queue.detour = None;
        e.push(Effect::Emit(Event::QueueChanged { index: target, length }));
        e.push(Effect::Load);
        (true, e)
    }

    fn demote_repeat(&mut self) -> (r: Vec<Effect>)
        requires
            old(self).wf(),
        ensures
            final(self).wf(),
            (final(self)@, r@) == after_demote(old(self)@),
    {
        let mut e: Vec<Effect> = Vec::new();
        if self.repeat == Repeat::Track {
            self.repeat = Repeat::Context;
            e.push(Effect::Emit(Event::RepeatChanged { repeat: Repeat::Context }));
        }
        e
    }

    /// Skips to the next track.
    pub fn next(&mut self) -> (r: Vec<Effect>)
        requires
            old(self).wf(),
        ensures
            final(self).wf(),
            (final(self)@, r@) == spec_next(old(self)@),
    {
        let mut e = self.demote_repeat();
        let (taken, mut e2) = self.take_up_next();
        if taken {
            e.append(&mut e2);
            return e;
        }
        let (stepped, mut e3) = self.step(true);
        if stepped {
            e.append(&mut e3);
        } else {
            e.push(Effect::Stop);
        }
        e
    }

    /// Goes back a track, or to the start of this one.
    pub fn previous(&mut self) -> (r: Vec<Effect>)
        requires
            old(self).wf(),
        ensures
            final(self).wf(),
            (final(self)@, r@) == spec_previous(old(self)@),
    {
        if self.position_ms > RESTART_THRESHOLD_MS {
            let mut e: Vec<Effect> = Vec::new();
            e.push(Effect::Seek(0));
            return e;
        }
        let mut e = self.demote_repeat();
        if self.queue.detour.is_some() {
            self.queue.detour = None;
            e.push(Effect::Load);
            return e;
        }
        let (stepped, mut e2) = self.step(false);
        if stepped {
            e.append(&mut e2);
        } else {
            e.push(Effect::Seek(0));
        }
        e
    }

    /// Goes on after a track ends.
    pub fn advance(&mut self) -> (r: Vec<Effect>)
        requires
            old(self).wf(),
        ensures
            final(self).wf(),
            (final(self)@, r@) == spec_advance(old(self)@),
    {
        let mut e: Vec<Effect> = Vec::new();
        if self.repeat == Repeat::Track {
            e.push(Effect::Load);
            return e;
        }
        let repeat = self.repeat;
        let (taken, e1) = self.take_up_next();
        if taken {
            return e1;
        }
        let (stepped, e2) = self.step(true);
        if stepped {
            return e2;
        }
        if repeat == Repeat::Context {
            self.queue.position = 0;
            self.queue.detour = None;
            let length = self.queue.order.len();
            e.push(Effect::Emit(Event::QueueChanged { index: 0, length }));
            e.push(Effect::Load);
        } else {
            e.push(Effect::Stop);
        }
        e
    }

    /// Starts or resumes playing.
    pub fn play(&mut self) -> (r: Vec<Effect>)
        requires
            old(self).wf(),
        ensures
            final(self).wf(),
            (final(self)@, r@) == spec_play(old(self)@),
    {
        let idle = self.queue.current().is_none();
        if idle {
            let (_, e) = self.take_up_next();
            return e;
        }
        let mut e: Vec<Effect> = Vec::new();
        if self.stopped {
            e.push(Effect::Load);
        } else {
            e.push(Effect::Play);
        }
        e
    }

    pub fn pause(&self) -> (r: Vec<Effect>)
        ensures
            r@ == seq![Effect::Pause],
    {
        let mut e: Vec<Effect> = Vec::new();
        e.push(Effect::Pause);
        e
    }

    pub fn stop(&self) -> (r: Vec<Effect>)
        ensures
            r@ == seq![Effect::Stop],
    {
        let mut e: Vec<Effect> = Vec::new();
        e.push(Effect::Stop);
        e
    }

    /// Pauses when playing, plays otherwise.
    pub fn toggle(&mut self) -> (r: Vec<Effect>)
        requires
            old(self).wf(),
        ensures
            final(self).wf(),
            old(self).playing ==> final(self)@ == old(self)@ && r@ == seq![Effect::Pause],
            !old(self).playing ==> (final(self)@, r@) == spec_play(old(self)@),
    {
        if self.playing {
            self.pause()
        } else {
            self.play()
        }
    }

    /// Drops what the sink holds, then seeks.
    pub fn seek(&self, position_ms: u32) -> (r: Vec<Effect>)
        ensures
            r@ == seq![Effect::Flush, Effect::Seek(position_ms)],
    {
        let mut e: Vec<Effect> = Vec::new();
        e.push(Effect::Flush);
        e.push(Effect::Seek(position_ms));
        e
    }

    pub fn set_volume(&self, volume: u16) -> (r: Vec<Effect>)
        ensures
            r@ == seq![Effect::SetVolume(volume), Effect::Emit(Event::Volume { volume })],
    {
        let mut e: Vec<Effect> = Vec::new();
        e.push(Effect::SetVolume(volume));
        e.push(Effect::Emit(Event::Volume { volume }));
        e
    }

    /// The track to preload.
    pub fn upcoming(&self) -> (r: Option<String>)
        requires
            self.wf(),
        ensures
            opt_string_view(r) == spec_upcoming(self@),
    {
        if self.queue.up_next.len() > 0 {
            return Some(self.queue.up_next[0].clone());
        }
        if self.queue.position < usize::MAX {
            let next = self.queue.at(self.queue.position + 1);
            if next.is_some() {
                return next;
            }
        }
        if self.repeat == Repeat::Context {
            self.queue.at(0)
        } else {
            None
        }
    }
}

} // verus!

verus! {

/// The player's report as playback takes it in, for every report but a track change
/// and a preload request.
pub open spec fn spec_handle(s: PlaybackView, event: PlayerEvent, session_invalid: bool) -> (
    PlaybackView,
    Seq<Effect>,
) {
    match event {
        PlayerEvent::Loading { uri } => (
            PlaybackView { stopped: false, ..s },
            seq![Effect::Emit(Event::Loading { uri })],
        ),
        PlayerEvent::Playing { uri, position_ms } => (
            PlaybackView { playing: true, position_ms, ..s },
            seq![Effect::Emit(Event::Playing { uri, position_ms })],
        ),
        PlayerEvent::Paused { uri, position_ms } => (
            PlaybackView { playing: false, position_ms, ..s },
            seq![Effect::Emit(Event::Paused { uri, position_ms })],
        ),
        PlayerEvent::Position { uri, position_ms } => (
            PlaybackView { position_ms, ..s },
            seq![Effect::Emit(Event::Position { uri, position_ms })],
        ),
        PlayerEvent::EndOfTrack => spec_advance(PlaybackView { position_ms: 0, ..s }),
        PlayerEvent::Unavailable { uri: _ } => if session_invalid {
            (s, seq![Effect::Reconnect])
        } else {
            let (s1, e1, took) = after_take_up_next(s);
            if took {
                (s1, e1)
            } else {
                let (s2, e2, stepped) = after_step(s1, true);
                if stepped {
                    (s2, e2)
                } else {
                    (s2, seq![Effect::Stop])
                }
            }
        },
        PlayerEvent::VolumeChanged { volume } => (s, seq![Effect::Emit(Event::Volume { volume })]),
        PlayerEvent::Stopped => (
            PlaybackView { playing: false, stopped: true, ..s },
            seq![Effect::Emit(Event::Stopped)],
        ),
        _ => (s, seq![]),
    }
}

impl Playback {
    /// Takes in what the player reports; `session_invalid` says whether the session
    /// has been lost.
    pub fn handle(&mut self, event: PlayerEvent, session_invalid: bool) -> (r: Vec<Effect>)
        requires
            old(self).wf(),
        ensures
            final(self).wf(),
            match event {
                PlayerEvent::TrackChanged { uri, name, artists, duration_ms, covers } => {
                    &&& final(self)@ == old(self)@
                    &&& r@.len() == 1
                    &&& (r@[0] matches Effect::Emit(
                        Event::TrackChanged { uri: u, name: n, artists: a, duration_ms: d, cover_id: c },
                    ) && u == uri && n == name && a == artists && d == duration_ms
                        && spec_cover_id(covers@, opt_string_view(c)))
                },
                PlayerEvent::TimeToPreloadNextTrack => {
                    &&& final(self)@ == old(self)@
                    &&& if session_invalid || spec_upcoming(old(self)@) is None {
                        r@.len() == 0
                    } else {
                        &&& r@.len() == 1
                        &&& (r@[0] matches Effect::Preload(u) && u@ == spec_upcoming(old(self)@)->0)
                    }
                },
                _ => (final(self)@, r@) == spec_handle(old(self)@, event, session_invalid),
            },
    {
        let mut e: Vec<Effect> = Vec::new();
        match event {
            PlayerEvent::Loading { uri } => {
                self.stopped = false;
                e.push(Effect::Emit(Event::Loading { uri }));
            },
            PlayerEvent::Playing { uri, position_ms } => {
                self.playing = true;
                self.position_ms = position_ms;
                e.push(Effect::Emit(Event::Playing { uri, position_ms }));
            },
            PlayerEvent::Paused { uri, position_ms } => {
                self.playing = false;
                self.position_ms = position_ms;
                e.push(Effect::Emit(Event::Paused { uri, position_ms }));
            },
            PlayerEvent::Position { uri, position_ms } => {
                self.position_ms = position_ms;
                e.push(Effect::Emit(Event::Position { uri, position_ms }));
            },
            PlayerEvent::TrackChanged { uri, name, artists, duration_ms, covers } => {
                let cover_id = cover_id(&covers);
                e.push(Effect::Emit(Event::TrackChanged { uri, name, artists, duration_ms, cover_id }));
            },
            PlayerEvent::EndOfTrack => {
                self.position_ms = 0;
                return self.advance();
            },
            PlayerEvent::Unavailable { uri: _ } => {
                if session_invalid {
                    e.push(Effect::Reconnect);
                    return e;
                }
                let (taken, e1) = self.take_up_next();
                if taken {
                    return e1;
                }
                let (stepped, e2) = self.step(true);
                if stepped {
                    return e2;
                }
                e.push(Effect::Stop);
            },
            PlayerEvent::TimeToPreloadNextTrack => {
                if !session_invalid {
                    match self.upcoming() {
                        Some(uri) => e.push(Effect::Preload(uri)),
                        None => {},
                    }
                }
            },
            PlayerEvent::VolumeChanged { volume } => {
                e.push(Effect::Emit(Event::Volume { volume }));
            },
            PlayerEvent::Stopped => {
                self.playing = false;
                self.stopped = true;
                e.push(Effect::Emit(Event::Stopped));
            },
            PlayerEvent::Other => {},
        }
        e
    }
}

/// The track that `from` names, if the slot holds one.
pub open spec fn slot_track(q: QueueView, from: Slot) -> Option<Seq<char>> {
    match from {
        Slot::Queued(i) => if i < q.up_next.len() {
            Some(q.up_next[i as int])
        } else {
            None
        },
        Slot::Ahead(o) => if q.position + 1 + o < q.order.len() {
            Some(q.ordered()[q.position + 1 + o])
        } else {
            None
        },
    }
}

/// The queued tracks and the play order once the track at `from` is taken out.
pub open spec fn without_slot(q: QueueView, from: Slot) -> (Seq<Seq<char>>, Seq<Seq<char>>) {
    match from {
        Slot::Queued(i) => (q.up_next.remove(i as int), q.ordered()),
        Slot::Ahead(o) => (q.up_next, q.ordered().remove(q.position + 1 + o)),
    }
}

/// The queued tracks and the play order once `uri` is put at `to`.
pub open spec fn with_slot(
    up_next: Seq<Seq<char>>,
    ordered: Seq<Seq<char>>,
    position: nat,
    to: Slot,
    uri: Seq<char>,
) -> (Seq<Seq<char>>, Seq<Seq<char>>) {
    match to {
        Slot::Queued(i) => (up_next.insert(min_int(i as int, up_next.len() as int), uri), ordered),
        Slot::Ahead(o) => (up_next, ordered.insert(min_int(position + 1 + o, ordered.len() as int), uri)),
    }
}

impl Playback {
    /// Moves a track from one slot of the queue to another; nothing happens when
    /// `from` holds no track.
    pub fn move_track(&mut self, from: Slot, to: Slot) -> (r: Vec<Effect>)
        requires
            old(self).wf(),
            old(self).queue@.uris.len() + 1 < usize::MAX,
        ensures
            same_report(old(self)@, final(self)@),
            final(self).wf(),
            final(self).repeat == old(self).repeat,
            slot_track(old(self).queue@, from) is None ==> final(self)@ == old(self)@ && r@.len()
                == 0,
            slot_track(old(self).queue@, from) is Some ==> ({
                let q = old(self).queue@;
                let (up1, ord1) = without_slot(q, from);
                let (up2, ord2) = with_slot(up1, ord1, q.position, to, slot_track(q, from)->0);
                let ahead = from is Ahead || to is Ahead;
                &&& final(self).queue@.up_next == up2
                &&& final(self).queue@.ordered() == ord2
                &&& final(self).queue@.position == q.position
                &&& final(self).queue@.detour == q.detour
                &&& final(self).queue@.source == q.source
                &&& final(self).queue@.shuffled == q.shuffled
                &&& r@ == if ahead {
                    seq![
                        Effect::Emit(Event::UpNextChanged),
                        Effect::Emit(
                            Event::QueueChanged {
                                index: q.position as usize,
                                length: ord2.len() as usize,
                            },
                        ),
                    ]
                } else {
                    seq![Effect::Emit(Event::UpNextChanged)]
                }
            }),
    {
        let mut e: Vec<Effect> = Vec::new();
        let ghost q = self.queue@;
        let uri = match from {
            Slot::Queued(index) => {
                let ghost before = self.queue.up_next@;
                let taken = self.queue.up_next.remove(index);
                if taken.is_some() {
                    assert(strings_view(self.queue.up_next@) =~= strings_view(before).remove(
                        index as int,
                    ));
                }
                taken
            },
            Slot::Ahead(offset) => self.queue.take_ahead(offset),
        };
        let uri = match uri {
            Some(u) => u,
            None => return e,
        };
        let ghost u = uri@;
        match to {
            Slot::Queued(index) => {
                let len = self.queue.up_next.len();
                let index = if index < len {
                    index
                } else {
                    len
                };
                let ghost before = self.queue.up_next@;
                self.queue.up_next.insert(index, uri);
                assert(strings_view(self.queue.up_next@) =~= strings_view(before).insert(
                    index as int,
                    u,
                ));
            },
            Slot::Ahead(offset) => self.queue.put_ahead(offset, uri),
        }
        e.push(Effect::Emit(Event::UpNextChanged));
        let ahead = match (from, to) {
            (Slot::Ahead(_), _) => true,
            (_, Slot::Ahead(_)) => true,
            _ => false,
        };
        if ahead {
            let index = self.queue.position;
            let length = self.queue.order.len();
            e.push(Effect::Emit(Event::QueueChanged { index, length }));
        }
        e
    }

    /// Turns shuffling on or off given the new order of the tracks other than the
    /// current one (`rest`, used only when turning it on): on puts the current track
    /// first and `rest` after it; off goes back to the source's order at the current
    /// track. Nothing happens when the mode is already `shuffle` or the source is
    /// empty.
    pub fn apply_shuffle(&mut self, shuffle: bool, rest: Vec<usize>) -> (r: Vec<Effect>)
        requires
            old(self).wf(),
            shuffle && !old(self).queue@.shuffled && old(self).queue@.uris.len() > 0
                ==> rest@.to_multiset() == others(
                old(self).queue@.uris.len(),
                old(self).queue@.order[old(self).queue@.position as int],
            ).to_multiset(),
        ensures
            same_report(old(self)@, final(self)@),
            final(self).wf(),
            final(self).repeat == old(self).repeat,
            final(self).queue@.current() == old(self).queue@.current(),
            old(self).queue@.shuffled == shuffle || old(self).queue@.uris.len() == 0 ==> final(self)@ == old(self)@ && r@.len() == 0,
            old(self).queue@.shuffled != shuffle && old(self).queue@.uris.len() > 0 ==> ({
                let q = old(self).queue@;
                let current = q.order[q.position as int];
                &&& final(self).queue@ == if shuffle {
                    shuffled_on(q, rest@)
                } else {
                    shuffled_off(q)
                }
                &&& r@ == seq![Effect::Emit(Event::ShuffleChanged { shuffle })]
            }),
    {
        let mut e: Vec<Effect> = Vec::new();
        let n = self.queue.uris.len();
        if self.queue.shuffled == shuffle || n == 0 {
            return e;
        }
        let ghost q = self.queue@;
        let current = self.queue.order[self.queue.position];
        if shuffle {
            let mut order: Vec<usize> = Vec::new();
            order.push(current);
            let mut rest = rest;
            let ghost rv = rest@;
            order.append(&mut rest);
            assert(order@.drop_first() =~= rv);
            proof {
                lemma_shuffled_order(q, current, order@);
            }
            self.queue.order = order;
            self.queue.position = 0;
        } else {
            let mut order: Vec<usize> = Vec::new();
            for i in 0..n
                invariant
                    order@ == identity(i as nat),
            {
                order.push(i);
                assert(order@ =~= identity((i + 1) as nat));
            }
            self.queue.order = order;
            self.queue.position = current;
        }
        self.queue.shuffled = shuffle;
        e.push(Effect::Emit(Event::ShuffleChanged { shuffle }));
        e
    }

    /// Turns shuffling on (a random order of the other tracks after the current one)
    /// or off (the source's order, at the current track). What is playing stays.
    pub fn set_shuffle(&mut self, shuffle: bool) -> (r: Vec<Effect>)
        requires
            old(self).wf(),
        ensures
            same_report(old(self)@, final(self)@),
            final(self).wf(),
            final(self).repeat == old(self).repeat,
            final(self).queue@.current() == old(self).queue@.current(),
            old(self).queue@.shuffled == shuffle || old(self).queue@.uris.len() == 0 ==> final(self)@ == old(self)@ && r@.len() == 0,
            old(self).queue@.shuffled != shuffle && old(self).queue@.uris.len() > 0 ==> ({
                let q = old(self).queue@;
                let current = q.order[q.position as int];
                &&& !shuffle ==> final(self).queue@ == shuffled_off(q)
                &&& shuffle ==> (exists|rest: Seq<usize>|
                    rest.to_multiset() == others(q.uris.len(), current).to_multiset()
                        && final(self).queue@ == shuffled_on(q, rest))
                &&& r@ == seq![Effect::Emit(Event::ShuffleChanged { shuffle })]
            }),
    {
        let n = self.queue.uris.len();
        if self.queue.shuffled == shuffle || n == 0 || !shuffle {
            return self.apply_shuffle(shuffle, Vec::new());
        }
        let current = self.queue.order[self.queue.position];
        let mut candidates: Vec<usize> = Vec::new();
        for i in 0..n
            invariant
                n == self.queue@.uris.len(),
                self.wf(),
                current < n,
                candidates@ == others(i as nat + 1, current).take(
                    if i <= current { i as int } else { i - 1 },
                ),
        {
            if i != current {
                candidates.push(i);
            }
            assert(candidates@ =~= others(i as nat + 2, current).take(
                if i + 1 <= current { i + 1 } else { i as int },
            ));
        }
        assert(candidates@ =~= others(n as nat, current));
        let rest = shuffled(candidates);
        self.apply_shuffle(shuffle, rest)
    }
}

/// The queue with shuffling on: the current track first, then `rest`.
pub open spec fn shuffled_on(q: QueueView, rest: Seq<usize>) -> QueueView {
    QueueView {
        order: seq![q.order[q.position as int]] + rest,
        position: 0,
        shuffled: true,
        ..q
    }
}

/// The queue with shuffling off: the source's order, at the current track.
pub open spec fn shuffled_off(q: QueueView) -> QueueView {
    QueueView {
        order: identity(q.uris.len()),
        position: q.order[q.position as int] as nat,
        shuffled: false,
        ..q
    }
}

/// Turning shuffling on and off again gives back a queue that played in the
/// source's order, at the same track.
pub proof fn law_shuffle_round_trip(q: QueueView, rest: Seq<usize>)
    requires
        q.wf(),
        q.uris.len() > 0,
        q.uris.len() < usize::MAX,
        !q.shuffled,
        q.order == identity(q.uris.len()),
    ensures
        shuffled_off(shuffled_on(q, rest)) == q,
        shuffled_off(shuffled_on(q, rest)).ordered() == q.uris,
{
    assert(q.ordered() =~= q.uris);
    let on = shuffled_on(q, rest);
    assert(on.order[0] == q.order[q.position as int]);
    assert(q.order[q.position as int] == q.position);
    assert(shuffled_off(on).order =~= q.order);
}

/// Moving a track to the slot it is in changes neither the queued tracks nor the
/// play order.
pub proof fn law_move_to_same_slot(q: QueueView, slot: Slot)
    requires
        q.wf(),
        slot_track(q, slot) is Some,
    ensures
        ({
            let (up1, ord1) = without_slot(q, slot);
            with_slot(up1, ord1, q.position, slot, slot_track(q, slot)->0) == (q.up_next, q.ordered())
        }),
{
    match slot {
        Slot::Queued(i) => {
            assert(q.up_next.remove(i as int).insert(i as int, q.up_next[i as int]) =~= q.up_next);
        },
        Slot::Ahead(o) => {
            let p = q.position + 1 + o;
            let ord = q.ordered();
            assert(ord.remove(p).insert(p, ord[p]) =~= ord);
        },
    }
}

proof fn lemma_others(n: nat, current: usize)
    requires
        current < n,
        n <= usize::MAX,
    ensures
        others(n, current).no_duplicates(),
        forall|i: int|
            0 <= i < others(n, current).len() ==> #[trigger] others(n, current)[i] < n
                && others(n, current)[i] != current,
{
    let s = others(n, current);
    assert forall|i: int| 0 <= i < s.len() implies #[trigger] s[i] < n && s[i] != current by {
        if i < current {
            assert(s[i] == i);
        } else {
            assert(s[i] == i + 1);
        }
    }
    assert forall|i: int, j: int| 0 <= i < s.len() && 0 <= j < s.len() && i != j implies s[i]
        != s[j] by {
        let vi: int = if i < current { i } else { i + 1 };
        let vj: int = if j < current { j } else { j + 1 };
        assert(s[i] == vi);
        assert(s[j] == vj);
    }
}

proof fn lemma_shuffled_order(q: QueueView, current: usize, order: Seq<usize>)
    requires
        q.wf(),
        q.uris.len() > 0,
        q.uris.len() < usize::MAX,
        current == q.order[q.position as int],
        order.len() > 0,
        order[0] == current,
        order.drop_first().to_multiset() == others(q.uris.len(), current).to_multiset(),
    ensures
        is_permutation(order, q.uris.len()),
        (QueueView { order, position: 0, ..q }).current() == q.current(),
{
    let n = q.uris.len();
    let rest = order.drop_first();
    let base = others(n, current);
    lemma_others(n, current);
    base.lemma_multiset_has_no_duplicates();
    assert forall|x: usize| rest.to_multiset().contains(x) implies rest.to_multiset().count(x)
        == 1 by {
    }
    rest.lemma_multiset_has_no_duplicates_conv();
    assert(rest.len() == base.len()) by {
        rest.to_multiset_ensures();
        base.to_multiset_ensures();
    }
    assert forall|i: int| 0 <= i < rest.len() implies #[trigger] rest[i] < n && rest[i] != current by {
        rest.to_multiset_ensures();
        base.to_multiset_ensures();
        assert(rest.contains(rest[i]));
        assert(rest.to_multiset().count(rest[i]) > 0);
        assert(base.to_multiset().count(rest[i]) > 0);
        assert(base.contains(rest[i]));
        let k = choose|k: int| 0 <= k < base.len() && base[k] == rest[i];
        assert(base[k] < n);
    }
    assert(q.order.len() == n);
    assert forall|i: int| 0 <= i < order.len() implies #[trigger] order[i] < n by {
        if i > 0 {
            assert(order[i] == rest[i - 1]);
        }
    }
    assert forall|i: int, j: int|
        0 <= i < j < order.len() implies #[trigger] order[i] != #[trigger] order[j] by {
        assert(order[j] == rest[j - 1]);
        if i > 0 {
            assert(order[i] == rest[i - 1]);
        }
    }
}


/// Tracks queued to play next play next: skipping after queueing them starts the
/// first of them, and the rest stay queued ahead of what was queued before.
pub proof fn law_play_next_then_skip(s: PlaybackView, uris: Seq<Seq<char>>)
    requires
        uris.len() > 0,
    ensures
        ({
            let queued = PlaybackView {
                queue: QueueView { up_next: uris + s.queue.up_next, ..s.queue },
                ..s
            };
            let (after, _) = spec_next(queued);
            &&& after.queue.current() == Some(uris[0])
            &&& after.queue.up_next == uris.drop_first() + s.queue.up_next
        }),
{
    let up = uris + s.queue.up_next;
    assert(up[0] == uris[0]);
    assert(up.drop_first() =~= uris.drop_first() + s.queue.up_next);
}

/// Tracks added to the queue wait behind those already queued: the queued tracks
/// before them keep their places.
pub proof fn law_add_to_queue_keeps_order(s: PlaybackView, uris: Seq<Seq<char>>)
    requires
        s.queue.up_next.len() > 0,
    ensures
        ({
            let queued = PlaybackView {
                queue: QueueView { up_next: s.queue.up_next + uris, ..s.queue },
                ..s
            };
            let (after, _) = spec_next(queued);
            &&& after.queue.current() == Some(s.queue.up_next[0])
            &&& after.queue.up_next == s.queue.up_next.drop_first() + uris
        }),
{
    let up = s.queue.up_next + uris;
    assert(up[0] == s.queue.up_next[0]);
    assert(up.drop_first() =~= s.queue.up_next.drop_first() + uris);
}

/// A queue in the source's order plays the source's tracks in that order, and what
/// plays is the track at the position.
pub proof fn law_source_order(q: QueueView)
    requires
        q.order == identity(q.uris.len()),
        q.position < q.uris.len(),
        q.uris.len() <= usize::MAX,
        q.detour is None,
    ensures
        q.ordered() == q.uris,
        q.current() == Some(q.uris[q.position as int]),
{
    assert(q.ordered() =~= q.uris);
}

/// Taking a track out of the play order and putting it back at the same offset gives
/// back the play order.
pub proof fn law_put_back_what_was_taken(
    q: QueueView,
    offset: int,
    taken: QueueView,
    restored: QueueView,
)
    requires
        q.wf(),
        0 <= offset,
        q.position + 1 + offset < q.order.len(),
        taken.ordered() == q.ordered().remove(q.position + 1 + offset),
        taken.position == q.position,
        restored.ordered() == taken.ordered().insert(
            min_int(taken.position + 1 + offset, taken.order.len() as int),
            q.ordered()[q.position + 1 + offset],
        ),
    ensures
        restored.ordered() == q.ordered(),
{
    let p = q.position + 1 + offset;
    let ord = q.ordered();
    assert(taken.order.len() == taken.ordered().len());
    assert(min_int(taken.position + 1 + offset, taken.order.len() as int) == p);
    assert(ord.remove(p).insert(p, ord[p]) =~= ord);
}

/// Moving a track keeps what has played and what is playing, and the tracks still to
/// come (the queued ones, then those ahead in the play order) are the same tracks,
/// each as often.
pub proof fn law_move_keeps_tracks(q: QueueView, from: Slot, to: Slot)
    requires
        q.wf(),
        q.order.len() > 0,
        slot_track(q, from) is Some,
    ensures
        ({
            let (up1, ord1) = without_slot(q, from);
            let (up2, ord2) = with_slot(up1, ord1, q.position, to, slot_track(q, from)->0);
            let cut = q.position + 1int;
            &&& ord2.take(cut) == q.ordered().take(cut)
            &&& (up2 + ord2.skip(cut)).to_multiset() == (q.up_next + q.ordered().skip(
                cut,
            )).to_multiset()
        }),
{
    broadcast use vstd::multiset::group_multiset_axioms;
    broadcast use vstd::seq_lib::lemma_multiset_commutative;
    broadcast use vstd::seq_lib::to_multiset_remove;
    broadcast use vstd::seq_lib::to_multiset_insert;

    let u = slot_track(q, from)->0;
    let ord = q.ordered();
    let up = q.up_next;
    let cut = q.position + 1int;
    let (up1, ord1) = without_slot(q, from);
    let (up2, ord2) = with_slot(up1, ord1, q.position, to, u);
    let rest = ord.skip(cut);
    let before = up.to_multiset().add(rest.to_multiset());
    match from {
        Slot::Queued(i) => {
            assert(up[i as int] == u);
            up.to_multiset_ensures();
            assert(up.contains(u));
            assert(up.to_multiset().count(u) > 0);
            match to {
                Slot::Queued(j) => {
                    assert(up2.to_multiset() =~= up.to_multiset());
                    assert(ord2 == ord);
                },
                Slot::Ahead(o) => {
                    let k = min_int(cut + o, ord.len() as int);
                    assert(ord2.take(cut) =~= ord.take(cut));
                    assert(ord2.skip(cut) =~= rest.insert(k - cut, u));
                    assert(up2.to_multiset().add(ord2.skip(cut).to_multiset()) =~= before);
                },
            }
        },
        Slot::Ahead(o) => {
            let p = cut + o;
            assert(ord[p] == u);
            assert(rest[p - cut] == u);
            assert(ord1.skip(cut) =~= rest.remove(p - cut));
            assert(ord1.take(cut) =~= ord.take(cut));
            rest.to_multiset_ensures();
            assert(rest.contains(u));
            assert(rest.to_multiset().count(u) > 0);
            match to {
                Slot::Queued(j) => {
                    assert(up2.to_multiset().add(ord2.skip(cut).to_multiset()) =~= before);
                },
                Slot::Ahead(o2) => {
                    let k = min_int(cut + o2, ord1.len() as int);
                    assert(ord2.take(cut) =~= ord.take(cut));
                    assert(ord2.skip(cut) =~= rest.remove(p - cut).insert(k - cut, u));
                    assert(up2.to_multiset().add(ord2.skip(cut).to_multiset()) =~= before);
                },
            }
        },
    }
}

/// When a track ends: with the track repeated it plays again and nothing else
/// changes; otherwise a queued track plays before the play order goes on (it comes
/// off the queue and the position stays); with nothing queued the next track in the
/// play order plays; at the end of the order the first plays again when the context
/// repeats, and playback stops when nothing repeats.
pub proof fn law_advance(s: PlaybackView)
    ensures
        ({
            let (t, e) = spec_advance(s);
            let q = s.queue;
            &&& s.repeat == Repeat::Track ==> t == s && e == seq![Effect::Load]
            &&& t.repeat == s.repeat
            &&& t.queue.uris == q.uris && t.queue.order == q.order
            &&& t.queue.source == q.source && t.queue.shuffled == q.shuffled
            &&& (s.repeat != Repeat::Track && q.up_next.len() > 0) ==> {
                &&& t.queue.current() == Some(q.up_next[0])
                &&& t.queue.up_next == q.up_next.drop_first()
                &&& t.queue.position == q.position
                &&& e.contains(Effect::Load)
            }
            &&& (s.repeat != Repeat::Track && q.up_next.len() == 0 && q.position + 1
                < q.order.len()) ==> {
                &&& t.queue.position == q.position + 1
                &&& t.queue.current() == q.at(q.position + 1int)
                &&& t.queue.up_next == q.up_next
                &&& e.contains(Effect::Load)
            }
            &&& (s.repeat == Repeat::Context && q.up_next.len() == 0 && q.position + 1
                >= q.order.len()) ==> {
                &&& t.queue.position == 0
                &&& t.queue.current() == q.at(0)
                &&& e.contains(Effect::Load)
            }
            &&& (s.repeat == Repeat::Off && q.up_next.len() == 0 && q.position + 1
                >= q.order.len()) ==> {
                &&& t.queue.position == q.position
                &&& e == seq![Effect::Stop]
            }
        }),
{
    let (t, e) = spec_advance(s);
    let q = s.queue;
    if s.repeat != Repeat::Track {
        if q.up_next.len() > 0 {
            assert(e[1] == Effect::Load);
        } else if q.position + 1 < q.order.len() {
            assert(e[1] == Effect::Load);
        } else if s.repeat == Repeat::Context {
            assert(e[1] == Effect::Load);
        }
    }
}

/// Skipping forward: a queued track plays before the play order goes on (it comes
/// off the queue and the position stays); with nothing queued the next track in the
/// play order plays, and at its end playback stops. Repeating the track turns into
/// repeating the context.
pub proof fn law_next(s: PlaybackView)
    ensures
        ({
            let (t, e) = spec_next(s);
            let q = s.queue;
            &&& t.repeat == if s.repeat == Repeat::Track {
                Repeat::Context
            } else {
                s.repeat
            }
            &&& t.queue.uris == q.uris && t.queue.order == q.order
            &&& q.up_next.len() > 0 ==> {
                &&& t.queue.current() == Some(q.up_next[0])
                &&& t.queue.up_next == q.up_next.drop_first()
                &&& t.queue.position == q.position
            }
            &&& (q.up_next.len() == 0 && q.position + 1 < q.order.len()) ==> {
                &&& t.queue.position == q.position + 1
                &&& t.queue.current() == q.at(q.position + 1int)
            }
            &&& (q.up_next.len() == 0 && q.position + 1 >= q.order.len()) ==> {
                &&& t.queue.position == q.position
                &&& e.last() == Effect::Stop
            }
        }),
{
}

/// Going back: a track that has played past the threshold starts again and nothing
/// else changes; otherwise a queued track playing in between gives way to the track
/// at the position in the play order (the position stays); otherwise the track
/// before it in the play order plays, and the first track starts again. Repeating
/// the track turns into repeating the context.
pub proof fn law_previous(s: PlaybackView)
    ensures
        ({
            let (t, e) = spec_previous(s);
            let q = s.queue;
            &&& s.position_ms > RESTART_THRESHOLD_MS ==> t == s && e == seq![Effect::Seek(0)]
            &&& t.queue.uris == q.uris && t.queue.order == q.order
            &&& t.queue.up_next == q.up_next
            &&& s.position_ms <= RESTART_THRESHOLD_MS ==> {
                &&& t.repeat == if s.repeat == Repeat::Track {
                    Repeat::Context
                } else {
                    s.repeat
                }
                &&& q.detour is Some ==> {
                    &&& t.queue.detour is None
                    &&& t.queue.position == q.position
                    &&& t.queue.current() == q.at(q.position as int)
                    &&& e.last() == Effect::Load
                }
                &&& (q.detour is None && 0 < q.position < q.order.len()) ==> {
                    &&& t.queue.position == q.position - 1
                    &&& t.queue.current() == q.at(q.position - 1)
                    &&& e.last() == Effect::Load
                }
                &&& (q.detour is None && q.position == 0) ==> {
                    &&& t.queue.position == 0
                    &&& t.queue.current() == q.current()
                    &&& e.last() == Effect::Seek(0)
                }
            }
        }),
{
}

/// In a play order that is not empty, the track preloaded before a track ends is the
/// one that plays when it ends (unless the track repeats): nothing is preloaded
/// exactly when playback would stop.
pub proof fn law_upcoming_is_what_advance_plays(s: PlaybackView)
    requires
        s.queue.wf(),
        s.queue.order.len() > 0,
        s.repeat != Repeat::Track,
    ensures
        ({
            let (t, e) = spec_advance(s);
            &&& e == seq![Effect::Stop] <==> spec_upcoming(s) is None
            &&& e != seq![Effect::Stop] ==> spec_upcoming(s) == t.queue.current()
        }),
{
    let q = s.queue;
    let (t, e) = spec_advance(s);
    if q.up_next.len() > 0 {
        assert(e.len() == 2);
    } else if q.position + 1 < q.order.len() {
        assert(q.order[q.position + 1int] < q.uris.len());
        assert(e.len() == 2);
    } else if s.repeat == Repeat::Context {
        assert(q.order[0] < q.uris.len());
        assert(e.len() == 2);
    } else {
        assert(e =~= seq![Effect::Stop]);
    }
}

/// What the player reports is taken as it is: playing, pausing, a new position and
/// stopping set the report (a report of playing or pausing also carries the
/// position), loading clears the stop, and each is passed on as the same event; the
/// queue and the repeat mode stay.
pub proof fn law_reports_are_taken_in(s: PlaybackView, uri: String, position_ms: u32, b: bool)
    ensures
        ({
            let (t, e) = spec_handle(s, PlayerEvent::Playing { uri, position_ms }, b);
            t.queue == s.queue && t.repeat == s.repeat && t.playing && !(t.stopped != s.stopped)
                && t.position_ms == position_ms && e == seq![
                Effect::Emit(Event::Playing { uri, position_ms }),
            ]
        }),
        ({
            let (t, e) = spec_handle(s, PlayerEvent::Paused { uri, position_ms }, b);
            t.queue == s.queue && t.repeat == s.repeat && !t.playing && t.stopped == s.stopped
                && t.position_ms == position_ms && e == seq![
                Effect::Emit(Event::Paused { uri, position_ms }),
            ]
        }),
        ({
            let (t, e) = spec_handle(s, PlayerEvent::Position { uri, position_ms }, b);
            t.queue == s.queue && t.repeat == s.repeat && t.playing == s.playing && t.stopped
                == s.stopped && t.position_ms == position_ms && e == seq![
                Effect::Emit(Event::Position { uri, position_ms }),
            ]
        }),
        ({
            let (t, e) = spec_handle(s, PlayerEvent::Stopped, b);
            t.queue == s.queue && t.repeat == s.repeat && !t.playing && t.stopped && t.position_ms
                == s.position_ms && e == seq![Effect::Emit(Event::Stopped)]
        }),
        ({
            let (t, e) = spec_handle(s, PlayerEvent::Loading { uri }, b);
            t.queue == s.queue && t.repeat == s.repeat && t.playing == s.playing && !t.stopped
                && t.position_ms == s.position_ms && e == seq![Effect::Emit(Event::Loading { uri })]
        }),
{
}

/// A track that cannot be played: with the session lost, the player reconnects and
/// nothing else changes; otherwise playback goes on as when skipping, without
/// repeating: a queued track first (it comes off the queue), else the next in the play
/// order, else it stops. A track that ends goes on from position 0 as `advance` does.
pub proof fn law_unplayable_and_ended_tracks(s: PlaybackView, uri: String)
    ensures
        ({
            let (t, e) = spec_handle(s, PlayerEvent::Unavailable { uri }, true);
            t == s && e == seq![Effect::Reconnect]
        }),
        ({
            let (t, e) = spec_handle(s, PlayerEvent::Unavailable { uri }, false);
            let q = s.queue;
            &&& t.repeat == s.repeat && t.queue.uris == q.uris && t.queue.order == q.order
            &&& q.up_next.len() > 0 ==> t.queue.current() == Some(q.up_next[0])
                && t.queue.up_next == q.up_next.drop_first() && t.queue.position == q.position
            &&& (q.up_next.len() == 0 && q.position + 1 < q.order.len()) ==> t.queue.position
                == q.position + 1 && t.queue.current() == q.at(q.position + 1int)
            &&& (q.up_next.len() == 0 && q.position + 1 >= q.order.len()) ==> e == seq![
                Effect::Stop,
            ] && t.queue.position == q.position
        }),
        ({
            let (t, e) = spec_handle(s, PlayerEvent::EndOfTrack, false);
            let q = s.queue;
            &&& (s.repeat != Repeat::Track && q.up_next.len() > 0) ==> t.queue.current() == Some(
                q.up_next[0],
            ) && t.queue.up_next == q.up_next.drop_first() && t.position_ms == 0
            &&& s.repeat == Repeat::Track ==> t.queue == q && e == seq![Effect::Load]
                && t.position_ms == 0
        }),
{
}

/// Starting playback: with nothing current, the first queued track plays (when there
/// is one); a stopped player loads the current track again; otherwise it resumes.
pub proof fn law_play(s: PlaybackView)
    ensures
        ({
            let (t, e) = spec_play(s);
            &&& t.repeat == s.repeat && t.queue.uris == s.queue.uris && t.queue.order
                == s.queue.order && t.queue.position == s.queue.position
            &&& (s.queue.current() is None && s.queue.up_next.len() > 0) ==> t.queue.current()
                == Some(s.queue.up_next[0]) && t.queue.up_next == s.queue.up_next.drop_first()
            &&& (s.queue.current() is Some && s.stopped) ==> t == s && e == seq![Effect::Load]
            &&& (s.queue.current() is Some && !s.stopped) ==> t == s && e == seq![Effect::Play]
        }),
{
}

} // verus!
