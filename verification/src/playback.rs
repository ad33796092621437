//! The slideshow state machine: playback state, current index, playlist
//! and per-display configuration, driven by commands and timer polls.

use vstd::prelude::*;
use vstd::seq_lib::group_to_multiset_ensures;
use vstd::multiset::Multiset;
use crate::messages::{ImageInfo, SlideshowCommand, SlideshowConfig, TvStatus};
use crate::strutil::{sp_str_le, str_le, lemma_str_le_total, lemma_str_le_trans};

verus! {

/// The playback state.  `Stopped` is the initial state and the state of
/// every empty playlist; `Playing` and `Paused` alternate by command.
#[derive(Clone, Copy, Debug, PartialEq, Eq, Structural)]
pub enum SlideshowState {
    Playing,
    Paused,
    Stopped,
}

/// The per-display configuration the controller runs under.  Durations
/// are in milliseconds.
#[derive(Debug, Clone)]
pub struct ControllerConfig {
    pub image_dir: String,
    pub display_duration: u64,
    pub transition_duration: u64,
    pub couchdb_url: String,
    pub couchdb_username: Option<String>,
    pub couchdb_password: Option<String>,
    pub tv_id: String,
    pub orientation: String,
    pub transition_effect: String,
}

/// The playlist is ordered by the `order` field.
pub open spec fn sorted_by_order(s: Seq<ImageInfo>) -> bool {
    forall|i: int, j: int| 0 <= i < j < s.len() ==> #[trigger] s[i].order <= #[trigger] s[j].order
}

/// The index after advancing one step forward, wrapping at the end.
pub open spec fn sp_next_index(i: int, n: int) -> int {
    if n == 0 {
        i
    } else {
        (i + 1) % n
    }
}

/// The index after stepping one back, wrapping at the start.
pub open spec fn sp_prev_index(i: int, n: int) -> int {
    if n == 0 {
        i
    } else if i == 0 {
        n - 1
    } else {
        i - 1
    }
}

/// The wire label of a playback state.
pub open spec fn sp_status_label(s: SlideshowState) -> Seq<char> {
    match s {
        SlideshowState::Playing => "playing"@,
        SlideshowState::Paused => "paused"@,
        SlideshowState::Stopped => "stopped"@,
    }
}

/// The subsequence of entries carrying a given order value, in their
/// original relative order.
pub open spec fn sp_with_order(s: Seq<ImageInfo>, v: u32) -> Seq<ImageInfo>
    decreases s.len(),
{
    if s.len() == 0 {
        Seq::empty()
    } else {
        let rest = sp_with_order(s.drop_last(), v);
        if s.last().order == v {
            rest.push(s.last())
        } else {
            rest
        }
    }
}

/// Selecting an order value distributes over concatenation.
proof fn lemma_with_order_add(a: Seq<ImageInfo>, b: Seq<ImageInfo>, v: u32)
    ensures
        sp_with_order(a + b, v) == sp_with_order(a, v) + sp_with_order(b, v),
    decreases b.len(),
{
    if b.len() == 0 {
        assert(a + b =~= a);
        assert(b =~= Seq::<ImageInfo>::empty());
        assert(sp_with_order(a, v) + sp_with_order(b, v) =~= sp_with_order(a, v));
    } else {
        lemma_with_order_add(a, b.drop_last(), v);
        assert((a + b).drop_last() =~= a + b.drop_last());
        assert((a + b).last() == b.last());
        if b.last().order == v {
            assert(sp_with_order(a + b, v) =~= sp_with_order(a, v) + sp_with_order(b, v));
        } else {
            assert(sp_with_order(a + b, v) =~= sp_with_order(a, v) + sp_with_order(b, v));
        }
    }
}

/// What a single entry contributes to an order selection.
proof fn lemma_with_order_one(x: ImageInfo, v: u32)
    ensures
        x.order == v ==> sp_with_order(seq![x], v) == seq![x],
        x.order != v ==> sp_with_order(seq![x], v) == Seq::<ImageInfo>::empty(),
{
    assert(sp_with_order(Seq::<ImageInfo>::empty(), v) == Seq::<ImageInfo>::empty());
    assert(seq![x].drop_last() =~= Seq::<ImageInfo>::empty());
    assert(seq![x].last() == x);
    assert(sp_with_order(seq![x].drop_last(), v) == Seq::<ImageInfo>::empty());
    if x.order == v {
        assert(sp_with_order(seq![x], v) =~= seq![x]);
    } else {
        assert(sp_with_order(seq![x], v) =~= Seq::<ImageInfo>::empty());
    }
}

/// A sequence with no entry of the given order selects nothing.
proof fn lemma_with_order_none(s: Seq<ImageInfo>, v: u32)
    requires
        forall|i: int| 0 <= i < s.len() ==> (#[trigger] s[i]).order != v,
    ensures
        sp_with_order(s, v) == Seq::<ImageInfo>::empty(),
    decreases s.len(),
{
    if s.len() > 0 {
        assert(s[s.len() - 1].order != v);
        assert(s.last() == s[s.len() - 1]);
        lemma_with_order_none(s.drop_last(), v);
        assert(sp_with_order(s.drop_last(), v) == Seq::<ImageInfo>::empty());
        assert(sp_with_order(s, v) =~= Seq::<ImageInfo>::empty());
    }
}

/// Sorts a playlist by its `order` field, stably: the result is ordered,
/// holds exactly the given entries, and for every order value the entries
/// carrying it keep their relative order.
pub fn sort_by_order(v: Vec<ImageInfo>) -> (r: Vec<ImageInfo>)
    ensures
        sorted_by_order(r@),
        r@.to_multiset() == v@.to_multiset(),
        r@.len() == v@.len(),
        forall|ov: u32| #[trigger] sp_with_order(r@, ov) == sp_with_order(v@, ov),
{
    broadcast use group_to_multiset_ensures;

    let ghost orig = v@;
    let mut src = v;
    let mut out: Vec<ImageInfo> = Vec::new();
    while src.len() > 0
        invariant
            out@.to_multiset().add(src@.to_multiset()) == orig.to_multiset(),
            out@.len() + src@.len() == orig.len(),
            sorted_by_order(out@),
            forall|i: int, j: int|
                0 <= i < out@.len() && 0 <= j < src@.len() ==> #[trigger] out@[i].order
                    <= #[trigger] src@[j].order,
            forall|ov: u32| #[trigger] sp_with_order(out@, ov) + sp_with_order(src@, ov)
                == sp_with_order(orig, ov),
        decreases src.len(),
    {
        let mut m: usize = 0;
        let mut k: usize = 1;
        while k < src.len()
            invariant
                m < k <= src.len(),
                src.len() > 0,
                forall|j: int| 0 <= j < k ==> src@[m as int].order <= #[trigger] src@[j].order,
                forall|j: int| 0 <= j < m ==> src@[m as int].order < #[trigger] src@[j].order,
            decreases src.len() - k,
        {
            if src[k].order < src[m].order {
                m = k;
            }
            k = k + 1;
        }
        let ghost pre = src@;
        let x = src.remove(m);
        proof {
            pre.to_multiset_ensures();
            out@.to_multiset_ensures();
            assert(pre.remove(m as int).to_multiset() =~= pre.to_multiset().remove(x));
            assert(out@.push(x).to_multiset() =~= out@.to_multiset().insert(x));
            assert(out@.push(x).to_multiset().add(src@.to_multiset()) =~= orig.to_multiset());
            assert forall|j: int| 0 <= j < src@.len() implies x.order <= #[trigger] src@[
                j].order by {
                if j < m {
                    assert(src@[j] == pre[j]);
                } else {
                    assert(src@[j] == pre[j + 1]);
                }
            }
            assert forall|i: int, j: int|
                0 <= i < out@.push(x).len() && 0 <= j < src@.len() implies #[trigger] out@.push(
                x,
            )[i].order <= #[trigger] src@[j].order by {
                if i < out@.len() {
                    assert(out@.push(x)[i] == out@[i]);
                    assert(pre.to_multiset().count(src@[j]) > 0);
                    assert(pre.contains(src@[j]));
                    let w = choose|w: int| 0 <= w < pre.len() && pre[w] == src@[j];
                    assert(out@[i].order <= pre[w].order);
                } else {
                    assert(out@.push(x)[i] == x);
                }
            }
            assert(sorted_by_order(out@.push(x)));
            assert forall|ov: u32|
                #[trigger] sp_with_order(out@.push(x), ov) + sp_with_order(src@, ov)
                == sp_with_order(orig, ov) by {
                let head = pre.subrange(0, m as int);
                let tail = pre.subrange(m + 1, pre.len() as int);
                assert(pre =~= head + (seq![x] + tail));
                assert(src@ =~= head + tail);
                assert(out@.push(x) =~= out@ + seq![x]);
                lemma_with_order_add(head, seq![x] + tail, ov);
                lemma_with_order_add(seq![x], tail, ov);
                lemma_with_order_add(head, tail, ov);
                lemma_with_order_add(out@, seq![x], ov);
                lemma_with_order_one(x, ov);
                if x.order == ov {
                    // the removed entry is the first of its order, so no
                    // entry of that order stands before it
                    assert forall|i: int| 0 <= i < head.len() implies (#[trigger] head[i]).order
                        != ov by {
                        assert(head[i] == pre[i]);
                    }
                    lemma_with_order_none(head, ov);
                    assert(sp_with_order(out@.push(x), ov) + sp_with_order(src@, ov)
                        =~= sp_with_order(out@, ov) + sp_with_order(pre, ov));
                } else {
                    assert(sp_with_order(out@.push(x), ov) + sp_with_order(src@, ov)
                        =~= sp_with_order(out@, ov) + sp_with_order(pre, ov));
                }
            }
        }
        out.push(x);
    }
    proof {
        assert(src@.to_multiset() =~= Multiset::<ImageInfo>::empty());
        assert(out@.to_multiset().add(Multiset::<ImageInfo>::empty()) =~= out@.to_multiset());
        assert(out@.to_multiset() =~= orig.to_multiset());
        assert forall|ov: u32| #[trigger] sp_with_order(out@, ov) == sp_with_order(
            orig,
            ov,
        ) by {
            assert(src@ =~= Seq::<ImageInfo>::empty());
            assert(sp_with_order(src@, ov) =~= Seq::<ImageInfo>::empty());
            assert(sp_with_order(out@, ov) + sp_with_order(src@, ov) =~= sp_with_order(
                out@,
                ov,
            ));
        }
    }
    out
}

/// The slideshow controller: playback state, current index, playlist and
/// configuration, mutated one atomic step at a time.
pub struct SlideshowController {
    pub config: ControllerConfig,
    pub state: SlideshowState,
    pub current_index: usize,
    pub images: Vec<ImageInfo>,
}

impl SlideshowController {
    /// An empty playlist is always `Stopped` at index 0; otherwise the
    /// index points into the playlist.
    pub open spec fn wf(self) -> bool {
        &&& self.images@.len() == 0 ==> self.state == SlideshowState::Stopped
            && self.current_index == 0
        &&& self.images@.len() > 0 ==> self.current_index < self.images@.len()
    }

    pub fn new(config: ControllerConfig) -> (s: SlideshowController)
        ensures
            s.wf(),
            s.config == config,
            s.state == SlideshowState::Stopped,
            s.current_index == 0,
            s.images@.len() == 0,
    {
        SlideshowController {
            config,
            state: SlideshowState::Stopped,
            current_index: 0,
            images: Vec::new(),
        }
    }

    /// Advances to the next image, wrapping at the end of the playlist;
    /// a no-op on an empty playlist.
    pub fn advance_to_next_image(&mut self)
        requires
            old(self).wf(),
        ensures
            final(self).wf(),
            final(self).config == old(self).config,
            final(self).state == old(self).state,
            final(self).images == old(self).images,
            final(self).current_index == sp_next_index(
                old(self).current_index as int,
                old(self).images@.len() as int,
            ),
    {
        if self.images.len() > 0 {
            self.current_index = (self.current_index + 1) % self.images.len();
        }
    }

    /// Steps back to the previous image, wrapping to the end from index
    /// 0; a no-op on an empty playlist.
    pub fn advance_to_previous_image(&mut self)
        requires
            old(self).wf(),
        ensures
            final(self).wf(),
            final(self).config == old(self).config,
            final(self).state == old(self).state,
            final(self).images == old(self).images,
            final(self).current_index == sp_prev_index(
                old(self).current_index as int,
                old(self).images@.len() as int,
            ),
    {
        if self.images.len() > 0 {
            if self.current_index == 0 {
                self.current_index = self.images.len() - 1;
            } else {
                self.current_index = self.current_index - 1;
            }
        }
    }

    /// Replaces the playlist wholesale: the new entries are sorted by
    /// their order field and an index past the new end is clamped to 0.
    /// Only the two automatic state edges apply: a playlist that becomes
    /// empty stops playback, an empty one that becomes non-empty starts
    /// it, and otherwise the state stays what it was.
    pub fn update_images(&mut self, new_images: Vec<ImageInfo>)
        requires
            old(self).wf(),
        ensures
            final(self).wf(),
            final(self).config == old(self).config,
            sorted_by_order(final(self).images@),
            final(self).images@.to_multiset() == new_images@.to_multiset(),
            final(self).images@.len() == new_images@.len(),
            forall|ov: u32| #[trigger] sp_with_order(final(self).images@, ov) == sp_with_order(
                new_images@,
                ov,
            ),
            final(self).state == if new_images@.len() == 0 {
                SlideshowState::Stopped
            } else if old(self).images@.len() == 0 {
                SlideshowState::Playing
            } else {
                old(self).state
            },
            new_images@.len() == 0 ==> final(self).current_index == 0,
            final(self).current_index == if old(self).current_index < new_images@.len() {
                old(self).current_index as int
            } else {
                0
            },
    {
        let was_empty = self.images.len() == 0;
        let sorted = sort_by_order(new_images);
        self.images = sorted;
        if self.current_index >= self.images.len() {
            self.current_index = 0;
        }
        if self.images.len() == 0 {
            self.state = SlideshowState::Stopped;
        } else if was_empty {
            self.state = SlideshowState::Playing;
        }
    }

    /// Applies a partial configuration update: only the fields present
    /// change, every other field keeps its prior value.
    pub fn update_config(&mut self, c: SlideshowConfig)
        requires
            old(self).wf(),
        ensures
            final(self).wf(),
            final(self).state == old(self).state,
            final(self).current_index == old(self).current_index,
            final(self).images == old(self).images,
            final(self).config.display_duration == match c.display_duration {
                Some(d) => d,
                None => old(self).config.display_duration,
            },
            final(self).config.transition_duration == match c.transition_duration {
                Some(d) => d,
                None => old(self).config.transition_duration,
            },
            final(self).config.orientation == match c.orientation {
                Some(o) => o,
                None => old(self).config.orientation,
            },
            final(self).config.transition_effect == match c.transition_effect {
                Some(t) => t,
                None => old(self).config.transition_effect,
            },
            final(self).config.image_dir == old(self).config.image_dir,
            final(self).config.couchdb_url == old(self).config.couchdb_url,
            final(self).config.couchdb_username == old(self).config.couchdb_username,
            final(self).config.couchdb_password == old(self).config.couchdb_password,
            final(self).config.tv_id == old(self).config.tv_id,
    {
        match c.display_duration {
            Some(d) => {
                self.config.display_duration = d;
            },
            None => {},
        }
        match c.transition_duration {
            Some(d) => {
                self.config.transition_duration = d;
            },
            None => {},
        }
        match c.orientation {
            Some(o) => {
                self.config.orientation = o;
            },
            None => {},
        }
        match c.transition_effect {
            Some(t) => {
                self.config.transition_effect = t;
            },
            None => {},
        }
    }

    /// Applies one command and reports whether an operating-system reboot
    /// was requested.  `Play` and `Pause` act only on a non-empty
    /// playlist, so an empty playlist stays `Stopped`; `Shutdown` stops
    /// playback without touching the playlist.
    pub fn handle_command(&mut self, cmd: SlideshowCommand) -> (reboot: bool)
        requires
            old(self).wf(),
        ensures
            final(self).wf(),
            reboot == (cmd is Reboot),
            match cmd {
                SlideshowCommand::Play => *final(self) == (SlideshowController {
                    state: if old(self).images@.len() > 0 {
                        SlideshowState::Playing
                    } else {
                        SlideshowState::Stopped
                    },
                    ..*old(self)
                }),
                SlideshowCommand::Pause => *final(self) == (SlideshowController {
                    state: if old(self).images@.len() > 0 {
                        SlideshowState::Paused
                    } else {
                        SlideshowState::Stopped
                    },
                    ..*old(self)
                }),
                SlideshowCommand::Next => *final(self) == (SlideshowController {
                    current_index: sp_next_index(
                        old(self).current_index as int,
                        old(self).images@.len() as int,
                    ) as usize,
                    ..*old(self)
                }),
                SlideshowCommand::Previous => *final(self) == (SlideshowController {
                    current_index: sp_prev_index(
                        old(self).current_index as int,
                        old(self).images@.len() as int,
                    ) as usize,
                    ..*old(self)
                }),
                SlideshowCommand::UpdateImages { images } => {
                    &&& final(self).config == old(self).config
                    &&& sorted_by_order(final(self).images@)
                    &&& final(self).images@.to_multiset() == images@.to_multiset()
                    &&& final(self).images@.len() == images@.len()
                    &&& (forall|ov: u32|
                        #[trigger] sp_with_order(final(self).images@, ov) == sp_with_order(
                            images@,
                            ov,
                        ))
                    &&& final(self).state == if images@.len() == 0 {
                        SlideshowState::Stopped
                    } else if old(self).images@.len() == 0 {
                        SlideshowState::Playing
                    } else {
                        old(self).state
                    }
                    &&& final(self).current_index == if old(self).current_index < images@.len() {
                        old(self).current_index as int
                    } else {
                        0
                    }
                },
                SlideshowCommand::UpdateConfig { config } => {
                    &&& final(self).state == old(self).state
                    &&& final(self).current_index == old(self).current_index
                    &&& final(self).images == old(self).images
                    &&& final(self).config.display_duration == match config.display_duration {
                        Some(d) => d,
                        None => old(self).config.display_duration,
                    }
                    &&& final(self).config.transition_duration == match config
                        .transition_duration {
                        Some(d) => d,
                        None => old(self).config.transition_duration,
                    }
                    &&& final(self).config.orientation == match config.orientation {
                        Some(o) => o,
                        None => old(self).config.orientation,
                    }
                    &&& final(self).config.transition_effect == match config.transition_effect {
                        Some(t) => t,
                        None => old(self).config.transition_effect,
                    }
                    &&& final(self).config.tv_id == old(self).config.tv_id
                },
                SlideshowCommand::Reboot => *final(self) == *old(self),
                SlideshowCommand::Shutdown => *final(self) == (SlideshowController {
                    state: SlideshowState::Stopped,
                    ..*old(self)
                }),
            },
    {
        match cmd {
            SlideshowCommand::Play => {
                if self.images.len() > 0 {
                    self.state = SlideshowState::Playing;
                }
                false
            },
            SlideshowCommand::Pause => {
                if self.images.len() > 0 {
                    self.state = SlideshowState::Paused;
                }
                false
            },
            SlideshowCommand::Next => {
                self.advance_to_next_image();
                false
            },
            SlideshowCommand::Previous => {
                self.advance_to_previous_image();
                false
            },
            SlideshowCommand::UpdateImages { images } => {
                self.update_images(images);
                false
            },
            SlideshowCommand::UpdateConfig { config } => {
                self.update_config(config);
                false
            },
            SlideshowCommand::Reboot => true,
            SlideshowCommand::Shutdown => {
                self.state = SlideshowState::Stopped;
                false
            },
        }
    }

    /// Auto-advance is due exactly when the slideshow is playing and the
    /// configured display duration has elapsed since the last change.
    pub fn should_advance_automatically(&self, elapsed_ms: u64) -> (r: bool)
        ensures
            r == (self.state == SlideshowState::Playing && elapsed_ms
                >= self.config.display_duration),
    {
        match self.state {
            SlideshowState::Playing => elapsed_ms >= self.config.display_duration,
            _ => false,
        }
    }

    /// One poll of the frame loop: advances when auto-advance is due and
    /// says whether it did.
    pub fn poll_advance(&mut self, elapsed_ms: u64) -> (advanced: bool)
        requires
            old(self).wf(),
        ensures
            final(self).wf(),
            advanced == (old(self).state == SlideshowState::Playing && elapsed_ms >= old(
                self,
            ).config.display_duration),
            final(self).config == old(self).config,
            final(self).state == old(self).state,
            final(self).images == old(self).images,
            advanced ==> final(self).current_index == sp_next_index(
                old(self).current_index as int,
                old(self).images@.len() as int,
            ),
            !advanced ==> final(self).current_index == old(self).current_index,
    {
        if self.should_advance_automatically(elapsed_ms) {
            self.advance_to_next_image();
            true
        } else {
            false
        }
    }

    /// The status snapshot emitted to the collaborators.
    pub fn make_status(&self, uptime: u64, timestamp: String) -> (r: TvStatus)
        requires
            self.wf(),
        ensures
            r.status@ == sp_status_label(self.state),
            self.images@.len() == 0 ==> r.current_image is None,
            self.images@.len() > 0 ==> r.current_image == Some(
                self.images@[self.current_index as int].id,
            ),
            r.total_images == self.images@.len(),
            r.current_index == self.current_index,
            r.uptime == uptime,
            r.timestamp == timestamp,
    {
        let status: String = match self.state {
            SlideshowState::Playing => "playing".to_owned(),
            SlideshowState::Paused => "paused".to_owned(),
            SlideshowState::Stopped => "stopped".to_owned(),
        };
        let current_image: Option<String> = if self.images.len() > 0 {
            Some(self.images[self.current_index].id.clone())
        } else {
            None
        };
        TvStatus {
            status,
            current_image,
            total_images: self.images.len(),
            current_index: self.current_index,
            uptime,
            timestamp,
        }
    }

    pub fn get_state(&self) -> (r: SlideshowState)
        ensures
            r == self.state,
    {
        self.state
    }

    pub fn is_playing(&self) -> (r: bool)
        ensures
            r == (self.state == SlideshowState::Playing),
    {
        match self.state {
            SlideshowState::Playing => true,
            _ => false,
        }
    }

    /// The path of the image at the current index, if any.
    pub fn get_current_image_path(&self) -> (r: Option<String>)
        requires
            self.wf(),
        ensures
            self.images@.len() == 0 ==> r is None,
            self.images@.len() > 0 ==> r == Some(self.images@[self.current_index as int].path),
    {
        if self.images.len() > 0 {
            Some(self.images[self.current_index].path.clone())
        } else {
            None
        }
    }

    /// The identifier of the image at the current index, if any.
    pub fn current_image_id(&self) -> (r: Option<String>)
        requires
            self.wf(),
        ensures
            self.images@.len() == 0 ==> r is None,
            self.images@.len() > 0 ==> r == Some(self.images@[self.current_index as int].id),
    {
        if self.images.len() > 0 {
            Some(self.images[self.current_index].id.clone())
        } else {
            None
        }
    }

    pub fn get_image_count(&self) -> (r: usize)
        ensures
            r == self.images@.len(),
    {
        self.images.len()
    }

    /// A copy of the playlist.
    pub fn get_image_list(&self) -> (r: Vec<ImageInfo>)
        ensures
            r@ == self.images@,
    {
        let mut r: Vec<ImageInfo> = Vec::new();
        let mut i: usize = 0;
        while i < self.images.len()
            invariant
                i <= self.images@.len(),
                r@ == self.images@.take(i as int),
            decreases self.images@.len() - i,
        {
            r.push(self.images[i].duplicate());
            proof {
                assert(r@ =~= self.images@.take(i + 1));
            }
            i = i + 1;
        }
        proof {
            assert(r@ =~= self.images@);
        }
        r
    }

    pub fn get_tv_id(&self) -> (r: String)
        ensures
            r == self.config.tv_id,
    {
        self.config.tv_id.clone()
    }

    pub fn get_orientation(&self) -> (r: String)
        ensures
            r == self.config.orientation,
    {
        self.config.orientation.clone()
    }

    pub fn get_transition_effect(&self) -> (r: String)
        ensures
            r == self.config.transition_effect,
    {
        self.config.transition_effect.clone()
    }

    /// The transition duration in milliseconds.
    pub fn get_transition_duration(&self) -> (r: u64)
        ensures
            r == self.config.transition_duration,
    {
        self.config.transition_duration
    }
}

/// The standalone-mode image queue: a list of file paths, kept in
/// lexicographic order, and the index of the one on screen.
pub struct ImageManager {
    pub images: Vec<String>,
    pub current_index: usize,
}

/// The queue is ordered by path, lexicographically by code point.
pub open spec fn sorted_lex(s: Seq<String>) -> bool {
    forall|i: int, j: int|
        0 <= i < j < s.len() ==> sp_str_le(#[trigger] s[i]@, #[trigger] s[j]@)
}

impl ImageManager {
    pub fn new() -> (r: ImageManager)
        ensures
            r.images@.len() == 0,
            r.current_index == 0,
            sorted_lex(r.images@),
    {
        ImageManager { images: Vec::new(), current_index: 0 }
    }

    /// Inserts a path not yet in the queue at its ordered position and
    /// returns that position; a path already queued changes nothing.
    pub fn add_new_image(&mut self, path: String) -> (r: Option<usize>)
        requires
            sorted_lex(old(self).images@),
        ensures
            sorted_lex(final(self).images@),
            final(self).current_index == old(self).current_index,
            (exists|i: int|
                0 <= i < old(self).images@.len() && old(self).images@[i]@ == path@) ==> (r
                is None && final(self).images == old(self).images),
            !(exists|i: int|
                0 <= i < old(self).images@.len() && old(self).images@[i]@ == path@) ==> (
            r matches Some(idx) && idx <= old(self).images@.len() && final(self).images@ == old(
                self,
            ).images@.insert(idx as int, path)),
    {
        let mut i: usize = 0;
        while i < self.images.len()
            invariant
                *self == *old(self),
                sorted_lex(self.images@),
                i <= self.images@.len(),
                forall|j: int| 0 <= j < i ==> #[trigger] self.images@[j]@ != path@,
            decreases self.images@.len() - i,
        {
            if self.images[i] == path {
                return None;
            }
            i = i + 1;
        }
        let mut idx: usize = 0;
        while idx < self.images.len() && str_le(self.images[idx].as_str(), path.as_str())
            invariant
                *self == *old(self),
                sorted_lex(self.images@),
                idx <= self.images@.len(),
                forall|j: int| 0 <= j < idx ==> sp_str_le(#[trigger] self.images@[j]@, path@),
            decreases self.images@.len() - idx,
        {
            idx = idx + 1;
        }
        let ghost pre = self.images@;
        proof {
            if idx < pre.len() {
                lemma_str_le_total(pre[idx as int]@, path@);
            }
        }
        self.images.insert(idx, path);
        proof {
            pre.insert_ensures(idx as int, path);
            assert forall|i2: int, j2: int|
                0 <= i2 < j2 < self.images@.len() implies sp_str_le(
                #[trigger] self.images@[i2]@,
                #[trigger] self.images@[j2]@,
            ) by {
                let s = self.images@;
                if i2 < idx && j2 < idx {
                    assert(s[i2] == pre[i2] && s[j2] == pre[j2]);
                } else if i2 < idx && j2 == idx {
                    assert(s[i2] == pre[i2] && s[j2] == path);
                } else if i2 < idx && j2 > idx {
                    assert(s[i2] == pre[i2] && s[j2] == pre[j2 - 1]);
                } else if i2 == idx {
                    assert(s[i2] == path && s[j2] == pre[j2 - 1]);
                    assert(sp_str_le(path@, pre[idx as int]@));
                    if j2 - 1 > idx {
                        assert(sp_str_le(pre[idx as int]@, pre[j2 - 1]@));
                        lemma_str_le_trans(path@, pre[idx as int]@, pre[j2 - 1]@);
                    }
                } else {
                    assert(s[i2] == pre[i2 - 1] && s[j2] == pre[j2 - 1]);
                }
            }
        }
        Some(idx)
    }

    /// The index after the current one, wrapping at the end of the queue.
    pub fn next_index(&self) -> (r: usize)
        requires
            self.images@.len() > 0,
            self.current_index < self.images@.len(),
        ensures
            r == sp_next_index(self.current_index as int, self.images@.len() as int),
    {
        let n = self.images.len();
        (self.current_index + 1) % n
    }
}

} // verus!
