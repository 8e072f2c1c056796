use crate::queue::Queue;
use crate::track::{snapshot_entries, snapshot_get, snapshot_keys, FxIndexMap, Track, TrackId};
use vstd::prelude::*;

verus! {

/// crossbeam_channel::Sender, opaque: only carried and used to send.
#[verifier::external_type_specification]
#[verifier::external_body]
#[verifier::reject_recursive_types(T)]
pub struct ExSender<T>(crossbeam_channel::Sender<T>);

/// Coordinator to preloader: open and prime the source of a track.
pub enum MainPreloaderMsg {
    PreloadTrack { id: TrackId, src: String },
}

/// Preloader to coordinator: the primed stream handle of a track.
pub enum PreloaderMainMsg<S> {
    PreloadedTrack { id: TrackId, stream: S },
}

/// A request to play a given track.
pub enum TrackMsg {
    Play(TrackId),
}

/// Transport commands.
#[derive(Debug, Clone, Copy, PartialEq, Eq, Structural)]
pub enum ControllerMsg {
    PlayPause,
    PlayNext,
    PlayPrev,
    Seek(u64),
}

/// Everything a user can ask of the coordinator.
pub enum UserMainMsg {
    Track(TrackMsg),
    Controller(ControllerMsg),
}

/// Audio output to coordinator: the stream stopped, with the exhausted
/// processor when it could be taken back.
pub enum StreamMainMsg<P> {
    StreamStopped(Option<Box<P>>),
}

/// Coordinator to audio output: install a primed processor, or seek.
pub enum MainStreamMsg<P> {
    NewProcessor(Box<P>),
    Seek(u64),
}

/// The processor slot owned by the real-time output callback.
pub struct OutputSlot<P> {
    processor: Option<Box<P>>,
}

impl<P> OutputSlot<P> {
    /// The installed processor, if any.
    pub closed spec fn spec_processor(&self) -> Option<Box<P>> {
        self.processor
    }

    pub fn new() -> (r: OutputSlot<P>)
        ensures
            r.spec_processor() is None,
    {
        OutputSlot { processor: None }
    }

    pub fn has_processor(&self) -> (r: bool)
        ensures
            r == self.spec_processor() is Some,
    {
        self.processor.is_some()
    }

    /// Applies one inbox message. A new processor replaces the installed one;
    /// a seek is handed back to be forwarded when a processor is installed,
    /// and dropped when none is.
    pub fn apply(&mut self, msg: MainStreamMsg<P>) -> (r: Option<u64>)
        ensures
            msg matches MainStreamMsg::NewProcessor(p) ==> final(self).spec_processor() == Some(p)
                && r is None,
            msg matches MainStreamMsg::Seek(pos) ==> final(self).spec_processor() == old(
                self
            ).spec_processor() && r == (if old(self).spec_processor() is Some {
                Some(pos)
            } else {
                None
            }),
    {
        match msg {
            MainStreamMsg::NewProcessor(p) => {
                self.processor = Some(p);
                None
            },
            MainStreamMsg::Seek(pos) => {
                if self.processor.is_some() {
                    Some(pos)
                } else {
                    None
                }
            },
        }
    }

    /// Takes the processor out for one callback when playback is on; when
    /// nothing comes back the callback writes silence.
    pub fn take_for_playback(&mut self, playing: bool) -> (r: Option<Box<P>>)
        ensures
            playing ==> r == old(self).spec_processor() && final(self).spec_processor() is None,
            !playing ==> r is None && final(self).spec_processor() == old(
                self
            ).spec_processor(),
    {
        if playing {
            self.processor.take()
        } else {
            None
        }
    }

    /// Puts the processor back after a callback that did not reach the end.
    pub fn restore(&mut self, p: Box<P>)
        ensures
            final(self).spec_processor() == Some(p),
    {
        self.processor = Some(p);
    }

    /// The notification for the coordinator once a processor reached the end
    /// of its stream: the slot stays empty and the processor goes back.
    pub fn stopped(p: Box<P>) -> (r: StreamMainMsg<P>)
        ensures
            r == StreamMainMsg::StreamStopped(Some(p)),
    {
        StreamMainMsg::StreamStopped(Some(p))
    }
}

/// Events for a front end.
pub enum Event {
    /// The playing track reached its end.
    TrackEnded,
}

/// State of one preload slot.
#[derive(Debug, Clone, Copy, PartialEq, Eq, Structural)]
pub enum TrackPreloaderState {
    NotPreloaded,
    Preloading(TrackId),
    Preloaded(TrackId),
}

/// What the audio output has to do once a message has been handled.
pub enum StreamCommand<S> {
    Nothing,
    /// Build a processor from the primed stream, install it and play.
    Start { id: TrackId, stream: S },
    Pause,
    Seek(u64),
}

/// Why a message could not be fully handled.
#[derive(Debug, Clone, Copy, PartialEq, Eq, Structural)]
pub enum StateError {
    /// The preload request could not be handed to the preloader.
    PreloaderUnreachable,
    /// The track is not in the library snapshot.
    UnknownTrack(TrackId),
}

/// The two preload slots and the channel to the preloader thread.
pub struct Preloader {
    curr: TrackPreloaderState,
    next: TrackPreloaderState,
    tx: crossbeam_channel::Sender<MainPreloaderMsg>,
}

/// Relies on crossbeam_channel::Sender::try_send: hands the message to the
/// channel without blocking; whether that succeeds depends on the receiver.
#[verifier::external_body]
fn try_send_request(tx: &crossbeam_channel::Sender<MainPreloaderMsg>, msg: MainPreloaderMsg) -> (r:
    bool) {
    tx.try_send(msg).is_ok()
}

/// Whether a track is in the library snapshot.
pub open spec fn in_library(library: FxIndexMap<TrackId, Track>, id: TrackId) -> bool {
    snapshot_keys(library).contains(id)
}

/// Whether the current slot still has to be pointed at `id`: it is neither
/// preloading nor holding that track.
pub open spec fn wants_preload(slot: TrackPreloaderState, id: TrackId) -> bool {
    slot != TrackPreloaderState::Preloading(id) && slot != TrackPreloaderState::Preloaded(id)
}

/// A slot after the preloader reported `id`: promoted only when it was
/// waiting for exactly that track.
pub open spec fn on_completion(slot: TrackPreloaderState, id: TrackId) -> TrackPreloaderState {
    if slot == TrackPreloaderState::Preloading(id) {
        TrackPreloaderState::Preloaded(id)
    } else {
        slot
    }
}

/// `m` is the preload request for track `id` of the library: it names the
/// track and carries the track's file path.
pub open spec fn is_request_for(
    library: FxIndexMap<TrackId, Track>,
    id: TrackId,
    m: MainPreloaderMsg,
) -> bool {
    m matches MainPreloaderMsg::PreloadTrack { id: i, src } && i == id && exists|k: int|
        0 <= k < snapshot_entries(library).len() && #[trigger] snapshot_entries(library)[k].0 == id
            && src@ == snapshot_entries(library)[k].1.filepath@
}

/// Exactly one request was handed to the preloader between `before` and
/// `after`, and it is the request for `id`.
pub open spec fn sent_one(
    before: Seq<MainPreloaderMsg>,
    after: Seq<MainPreloaderMsg>,
    library: FxIndexMap<TrackId, Track>,
    id: TrackId,
) -> bool {
    &&& after.len() == before.len() + 1
    &&& after.take(before.len() as int) == before
    &&& is_request_for(library, id, after.last())
}

/// How a request to point the current slot at `id` ends: nothing to do when
/// the slot already preloads or holds it; otherwise the track must be in the
/// library, and the slot moves only once the request was sent.
pub open spec fn preload_outcome(
    slot: TrackPreloaderState,
    id: TrackId,
    library: FxIndexMap<TrackId, Track>,
    new_slot: TrackPreloaderState,
    r: Result<(), StateError>,
    sent: Seq<MainPreloaderMsg>,
    new_sent: Seq<MainPreloaderMsg>,
) -> bool {
    &&& !wants_preload(slot, id) ==> r is Ok && new_slot == slot && new_sent == sent
    &&& wants_preload(slot, id) && !in_library(library, id) ==> r == Err::<(), StateError>(
        StateError::UnknownTrack(id),
    ) && new_slot == slot && new_sent == sent
    &&& wants_preload(slot, id) && in_library(library, id) ==> sent_one(sent, new_sent, library, id)
        && match r {
        Ok(()) => new_slot == TrackPreloaderState::Preloading(id),
        Err(e) => e == StateError::PreloaderUnreachable && new_slot == slot,
    }
}

/// How the look-ahead request for the track after the current one ends:
/// the next slot points at it once the request was sent.
pub open spec fn lookahead_outcome(
    peeked: Option<TrackId>,
    library: FxIndexMap<TrackId, Track>,
    slot: TrackPreloaderState,
    new_slot: TrackPreloaderState,
    r: Result<(), StateError>,
    sent: Seq<MainPreloaderMsg>,
    new_sent: Seq<MainPreloaderMsg>,
) -> bool {
    match peeked {
        None => r is Ok && new_slot == slot && new_sent == sent,
        Some(n) => if !in_library(library, n) {
            r == Err::<(), StateError>(StateError::UnknownTrack(n)) && new_slot == slot
                && new_sent == sent
        } else {
            sent_one(sent, new_sent, library, n) && match r {
                Ok(()) => new_slot == TrackPreloaderState::Preloading(n),
                Err(e) => e == StateError::PreloaderUnreachable && new_slot == slot,
            }
        },
    }
}

/// Play/pause: the queue's current track (healing an unset cursor) is made
/// to preload in the current slot.
pub open spec fn play_pause_post(pre: State, post: State, r: Result<(), StateError>) -> bool {
    &&& post.spec_library() == pre.spec_library()
    &&& post.spec_next() == pre.spec_next()
    &&& post.spec_queue().storage() == pre.spec_queue().storage()
    &&& post.spec_queue().positions() == pre.spec_queue().positions()
    &&& post.spec_queue().cursor() == pre.spec_queue().healed_cursor()
    &&& !(r matches Err(StateError::UnknownTrack(_)))
    &&& match pre.spec_queue().spec_curr() {
        None => r is Ok && post.spec_curr() == pre.spec_curr() && post.spec_sent()
            == pre.spec_sent(),
        Some(id) => preload_outcome(
            pre.spec_curr(),
            id,
            pre.spec_library(),
            post.spec_curr(),
            r,
            pre.spec_sent(),
            post.spec_sent(),
        ),
    }
}

/// Next: the queue advances; a look-ahead preload of the new current track
/// moves to the current slot, which is then made to preload that track.
pub open spec fn play_next_post(pre: State, post: State, r: Result<(), StateError>) -> bool {
    &&& post.spec_library() == pre.spec_library()
    &&& post.spec_queue().storage() == pre.spec_queue().storage()
    &&& post.spec_queue().positions() == pre.spec_queue().positions()
    &&& !(r matches Err(StateError::UnknownTrack(_)))
    &&& pre.spec_queue().view().len() == 0 ==> r is Ok && post.same_as(&pre)
    &&& pre.spec_queue().view().len() > 0 ==> {
        let c = next_cursor_of(pre.spec_queue());
        let id = pre.spec_queue().view()[c];
        let promoted = pre.spec_next() == TrackPreloaderState::Preloading(id);
        let slot = if promoted {
            TrackPreloaderState::Preloading(id)
        } else {
            pre.spec_curr()
        };
        &&& post.spec_queue().cursor() == Some(c)
        &&& post.spec_next() == (if promoted {
            TrackPreloaderState::NotPreloaded
        } else {
            pre.spec_next()
        })
        &&& preload_outcome(
            slot,
            id,
            pre.spec_library(),
            post.spec_curr(),
            r,
            pre.spec_sent(),
            post.spec_sent(),
        )
    }
}

/// Play a given track: unless the current slot holds a preloaded stream, a
/// preload of the track is requested and the current slot points at it.
pub open spec fn play_track_post(pre: State, post: State, id: TrackId, r: Result<(), StateError>) -> bool {
    &&& post.spec_queue() == pre.spec_queue()
    &&& post.spec_library() == pre.spec_library()
    &&& post.spec_next() == pre.spec_next()
    &&& pre.spec_curr() is Preloaded ==> r is Ok && post.spec_curr() == pre.spec_curr()
        && post.spec_sent() == pre.spec_sent()
    &&& !(pre.spec_curr() is Preloaded) && !in_library(pre.spec_library(), id) ==> r
        == Err::<(), StateError>(StateError::UnknownTrack(id)) && post.spec_curr() == pre.spec_curr()
        && post.spec_sent() == pre.spec_sent()
    &&& !(pre.spec_curr() is Preloaded) && in_library(pre.spec_library(), id) ==> sent_one(
        pre.spec_sent(),
        post.spec_sent(),
        pre.spec_library(),
        id,
    ) && match r {
        Ok(()) => post.spec_curr() == TrackPreloaderState::Preloading(id),
        Err(e) => e == StateError::PreloaderUnreachable && post.spec_curr() == pre.spec_curr(),
    }
}

/// `r` without the command it may carry.
pub open spec fn unit_result<S>(r: Result<StreamCommand<S>, StateError>) -> Result<(), StateError> {
    match r {
        Ok(_) => Ok(()),
        Err(e) => Err(e),
    }
}

/// A transport command: play/pause and next act on the queue and the slots
/// and carry no command; seek is forwarded; previous changes nothing.
pub open spec fn controller_post<S>(
    pre: State,
    post: State,
    msg: ControllerMsg,
    r: Result<StreamCommand<S>, StateError>,
) -> bool {
    match msg {
        ControllerMsg::PlayPause => play_pause_post(pre, post, unit_result(r)) && (r is Ok ==> r
            == Ok::<StreamCommand<S>, StateError>(StreamCommand::Nothing)),
        ControllerMsg::PlayNext => play_next_post(pre, post, unit_result(r)) && (r is Ok ==> r
            == Ok::<StreamCommand<S>, StateError>(StreamCommand::Nothing)),
        ControllerMsg::PlayPrev => post.same_as(&pre) && r == Ok::<StreamCommand<S>, StateError>(
            StreamCommand::Nothing,
        ),
        ControllerMsg::Seek(pos) => post.same_as(&pre) && r == Ok::<StreamCommand<S>, StateError>(
            StreamCommand::Seek(pos),
        ),
    }
}

/// The coordinator: owns the queue, the library snapshot and the preload
/// slots, and turns messages into slot transitions, preload requests and
/// commands for the audio output.
pub struct State {
    queue: Queue,
    library: FxIndexMap<TrackId, Track>,
    preloader: Preloader,
    sent: Ghost<Seq<MainPreloaderMsg>>,
}

impl State {
    pub closed spec fn spec_queue(&self) -> Queue {
        self.queue
    }

    pub closed spec fn spec_library(&self) -> FxIndexMap<TrackId, Track> {
        self.library
    }

    /// The current-track slot.
    pub closed spec fn spec_curr(&self) -> TrackPreloaderState {
        self.preloader.curr
    }

    /// The next-track slot.
    pub closed spec fn spec_next(&self) -> TrackPreloaderState {
        self.preloader.next
    }

    /// Every request handed to the preloader channel, oldest first.
    pub closed spec fn spec_sent(&self) -> Seq<MainPreloaderMsg> {
        self.sent@
    }

    pub closed spec fn wf(&self) -> bool {
        &&& self.queue.wf()
        &&& forall|k: int|
            0 <= k < self.queue.view().len() ==> in_library(
                self.library,
                #[trigger] self.queue.view()[k],
            )
    }

    /// Every track of the queue is in the library.
    pub proof fn lemma_queue_in_library(&self)
        requires
            self.wf(),
        ensures
            forall|k: int|
                0 <= k < self.spec_queue().view().len() ==> in_library(
                    self.spec_library(),
                    #[trigger] self.spec_queue().view()[k],
                ),
    {
    }

    /// Queue, library, both slots and the requests sent equal.
    pub open spec fn same_as(&self, other: &State) -> bool {
        &&& self.spec_sent() == other.spec_sent()
        &&& self.spec_queue() == other.spec_queue()
        &&& self.spec_library() == other.spec_library()
        &&& self.spec_curr() == other.spec_curr()
        &&& self.spec_next() == other.spec_next()
    }

    /// Starts with the queue in library order and both slots empty.
    pub fn new(library: FxIndexMap<TrackId, Track>, tx: crossbeam_channel::Sender<
        MainPreloaderMsg,
    >) -> (r: State)
        ensures
            r.wf(),
            r.spec_queue().view() == snapshot_keys(library),
            r.spec_queue().cursor() == (if snapshot_keys(library).len() > 0 {
                Some(0int)
            } else {
                None
            }),
            r.spec_library() == library,
            r.spec_curr() == TrackPreloaderState::NotPreloaded,
            r.spec_next() == TrackPreloaderState::NotPreloaded,
            r.spec_sent() == Seq::<MainPreloaderMsg>::empty(),
    {
        let queue = Queue::new(&library);
        let r = State {
            queue,
            library,
            preloader: Preloader {
                curr: TrackPreloaderState::NotPreloaded,
                next: TrackPreloaderState::NotPreloaded,
                tx,
            },
            sent: Ghost(Seq::empty()),
        };
        proof {
            assert forall|k: int| 0 <= k < r.queue.view().len() implies in_library(
                r.library,
                #[trigger] r.queue.view()[k],
            ) by {
                assert(snapshot_keys(r.library)[k] == r.queue.view()[k]);
            }
        }
        r
    }

    pub fn curr_slot(&self) -> (r: TrackPreloaderState)
        ensures
            r == self.spec_curr(),
    {
        self.preloader.curr
    }

    pub fn next_slot(&self) -> (r: TrackPreloaderState)
        ensures
            r == self.spec_next(),
    {
        self.preloader.next
    }

    pub fn queue(&self) -> (r: &Queue)
        ensures
            *r == self.spec_queue(),
    {
        &self.queue
    }

    /// The preload request for a track of the library: its id and its file
    /// path.
    pub fn preload_request(&self, id: TrackId) -> (r: Result<MainPreloaderMsg, StateError>)
        ensures
            (r == Err::<MainPreloaderMsg, StateError>(StateError::UnknownTrack(id))) <==> !in_library(
                self.spec_library(),
                id,
            ),
            r matches Err(e) ==> e == StateError::UnknownTrack(id),
            r is Ok ==> is_request_for(self.spec_library(), id, r->Ok_0),
    {
        let track = match snapshot_get(&self.library, id) {
            Some(t) => t,
            None => {
                proof {
                    if in_library(self.library, id) {
                        let k = choose|k: int|
                            0 <= k < snapshot_keys(self.library).len() && snapshot_keys(
                                self.library,
                            )[k] == id;
                        assert(snapshot_entries(self.library)[k].0 == id);
                    }
                }
                return Err(StateError::UnknownTrack(id));
            },
        };
        proof {
            let k = choose|k: int|
                0 <= k < snapshot_entries(self.library).len() && #[trigger] snapshot_entries(
                    self.library,
                )[k].0 == id && snapshot_entries(self.library)[k].1 == *track;
            assert(snapshot_keys(self.library)[k] == id);
        }
        Ok(MainPreloaderMsg::PreloadTrack { id, src: track.filepath.clone() })
    }

    /// Hands the preload request for a track of the library to the
    /// preloader channel.
    fn request_preload(&mut self, id: TrackId) -> (r: Result<(), StateError>)
        ensures
            final(self).spec_queue() == old(self).spec_queue(),
            final(self).spec_library() == old(self).spec_library(),
            final(self).spec_curr() == old(self).spec_curr(),
            final(self).spec_next() == old(self).spec_next(),
            final(self).wf() == old(self).wf(),
            !in_library(old(self).spec_library(), id) ==> r == Err::<(), StateError>(
                StateError::UnknownTrack(id),
            ) && final(self).spec_sent() == old(self).spec_sent(),
            in_library(old(self).spec_library(), id) ==> (r is Ok || r == Err::<(), StateError>(
                StateError::PreloaderUnreachable,
            )) && sent_one(old(self).spec_sent(), final(self).spec_sent(), old(self).spec_library(), id),
    {
        let msg = match self.preload_request(id) {
            Ok(msg) => msg,
            Err(e) => {
                return Err(e);
            },
        };
        let ghost before = self.sent@;
        let sent = self.send_request(msg);
        proof {
            assert(self.sent@.take(before.len() as int) =~= before);
        }
        if sent {
            Ok(())
        } else {
            Err(StateError::PreloaderUnreachable)
        }
    }

    /// Records a request and hands that same request to the preloader
    /// channel; tells whether the channel took it.
    fn send_request(&mut self, msg: MainPreloaderMsg) -> (r: bool)
        ensures
            final(self).spec_sent() == old(self).spec_sent().push(msg),
            final(self).spec_queue() == old(self).spec_queue(),
            final(self).spec_library() == old(self).spec_library(),
            final(self).spec_curr() == old(self).spec_curr(),
            final(self).spec_next() == old(self).spec_next(),
            final(self).wf() == old(self).wf(),
    {
        self.sent = Ghost(self.sent@.push(msg));
        try_send_request(&self.preloader.tx, msg)
    }

    /// Points the current slot at `id` unless it already preloads or holds it,
    /// sending the preload request first.
    fn preload_current(&mut self, id: TrackId) -> (r: Result<(), StateError>)
        requires
            old(self).wf(),
        ensures
            final(self).wf(),
            final(self).spec_queue() == old(self).spec_queue(),
            final(self).spec_library() == old(self).spec_library(),
            final(self).spec_next() == old(self).spec_next(),
            preload_outcome(
                old(self).spec_curr(),
                id,
                old(self).spec_library(),
                final(self).spec_curr(),
                r,
                old(self).spec_sent(),
                final(self).spec_sent(),
            ),
    {
        let slot = self.preloader.curr;
        if slot == TrackPreloaderState::Preloading(id) || slot == TrackPreloaderState::Preloaded(id) {
            return Ok(());
        }
        match self.request_preload(id) {
            Ok(()) => {
                self.preloader.curr = TrackPreloaderState::Preloading(id);
                Ok(())
            },
            Err(e) => Err(e),
        }
    }

    /// Play/pause: makes sure the queue's current track is preloading or
    /// preloaded in the current slot.
    pub fn handle_play_pause(&mut self) -> (r: Result<(), StateError>)
        requires
            old(self).wf(),
        ensures
            final(self).wf(),
            play_pause_post(*old(self), *final(self), r),
    {
        proof {
            self.queue.lemma_wf();
        }
        let ghost view = self.queue.view();
        match self.queue.curr() {
            Some(id) => {
                proof {
                    assert(self.queue.view() == view);
                    let c = self.queue.cursor()->0;
                    assert(view[c] == id);
                }
                self.preload_current(id)
            },
            None => Ok(()),
        }
    }

    /// Next: advances the queue; a look-ahead preload of the new current
    /// track is promoted to the current slot, then the current track is made
    /// sure to be preloading as on play/pause.
    pub fn handle_play_next(&mut self) -> (r: Result<(), StateError>)
        requires
            old(self).wf(),
        ensures
            final(self).wf(),
            play_next_post(*old(self), *final(self), r),
    {
        let ghost view = self.queue.view();
        proof {
            self.queue.lemma_wf();
        }
        match self.queue.next() {
            Some(id) => {
                proof {
                    assert(self.queue.view() == view);
                    let c = self.queue.cursor()->0;
                    assert(view[c] == id);
                }
                if self.preloader.next == TrackPreloaderState::Preloading(id) {
                    self.preloader.curr = TrackPreloaderState::Preloading(id);
                    self.preloader.next = TrackPreloaderState::NotPreloaded;
                }
                self.preload_current(id)
            },
            None => Ok(()),
        }
    }

    /// Previous: not supported yet, changes nothing.
    pub fn handle_play_prev(&self) -> (r: Result<(), StateError>)
        ensures
            r is Ok,
    {
        Ok(())
    }

    /// Play a given track: unless the current slot already holds a preloaded
    /// stream, a preload of that track is requested and the current slot
    /// points at it.
    pub fn handle_track_msg(&mut self, msg: TrackMsg) -> (r: Result<(), StateError>)
        requires
            old(self).wf(),
        ensures
            final(self).wf(),
            msg matches TrackMsg::Play(id) ==> play_track_post(*old(self), *final(self), id, r),
    {
        match msg {
            TrackMsg::Play(id) => {
                if let TrackPreloaderState::Preloaded(_) = self.preloader.curr {
                    return Ok(());
                }
                match self.request_preload(id) {
                    Ok(()) => {
                        self.preloader.curr = TrackPreloaderState::Preloading(id);
                        Ok(())
                    },
                    Err(e) => Err(e),
                }
            },
        }
    }

    /// Transport commands: play/pause and next act on the queue and the
    /// slots; seek is forwarded to the audio output; previous does nothing.
    pub fn handle_controller_msg<S>(&mut self, msg: ControllerMsg) -> (r: Result<
        StreamCommand<S>,
        StateError,
    >)
        requires
            old(self).wf(),
        ensures
            final(self).wf(),
            controller_post(*old(self), *final(self), msg, r),
    {
        match msg {
            ControllerMsg::PlayPause => match self.handle_play_pause() {
                Ok(()) => Ok(StreamCommand::Nothing),
                Err(e) => Err(e),
            },
            ControllerMsg::PlayNext => match self.handle_play_next() {
                Ok(()) => Ok(StreamCommand::Nothing),
                Err(e) => Err(e),
            },
            ControllerMsg::PlayPrev => match self.handle_play_prev() {
                Ok(()) => Ok(StreamCommand::Nothing),
                Err(e) => Err(e),
            },
            ControllerMsg::Seek(pos) => Ok(self.handle_seek(pos)),
        }
    }

    /// A user message: a track request or a transport command.
    pub fn handle_user_main_msg<S>(&mut self, msg: UserMainMsg) -> (r: Result<
        StreamCommand<S>,
        StateError,
    >)
        requires
            old(self).wf(),
        ensures
            final(self).wf(),
            msg matches UserMainMsg::Track(TrackMsg::Play(id)) ==> play_track_post(
                *old(self),
                *final(self),
                id,
                unit_result(r),
            ) && (r is Ok ==> r == Ok::<StreamCommand<S>, StateError>(StreamCommand::Nothing)),
            msg matches UserMainMsg::Controller(c) ==> controller_post(*old(self), *final(self), c, r),
    {
        match msg {
            UserMainMsg::Track(m) => match self.handle_track_msg(m) {
                Ok(()) => Ok(StreamCommand::Nothing),
                Err(e) => Err(e),
            },
            UserMainMsg::Controller(m) => self.handle_controller_msg(m),
        }
    }

    /// Pause: the audio output stops.
    pub fn handle_pause<S>(&self) -> (r: StreamCommand<S>)
        ensures
            r == StreamCommand::<S>::Pause,
    {
        StreamCommand::Pause
    }

    /// Resume: nothing to do yet.
    pub fn handle_resume<S>(&self) -> (r: StreamCommand<S>)
        ensures
            r == StreamCommand::<S>::Nothing,
    {
        StreamCommand::Nothing
    }

    /// Seek: forwarded to the audio output.
    pub fn handle_seek<S>(&self, pos: u64) -> (r: StreamCommand<S>)
        ensures
            r == StreamCommand::<S>::Seek(pos),
    {
        StreamCommand::Seek(pos)
    }

    /// The stream stopped at its end: the output pauses and the exhausted
    /// processor is dropped.
    pub fn handle_stream_stopped<P, S>(&self, maybe_audio_processor: Option<Box<P>>) -> (r:
        StreamCommand<S>)
        ensures
            r == StreamCommand::<S>::Pause,
    {
        StreamCommand::Pause
    }

    /// A message of the audio output.
    pub fn handle_stream_main_msg<P, S>(&self, msg: StreamMainMsg<P>) -> (r: StreamCommand<S>)
        ensures
            r == StreamCommand::<S>::Pause,
    {
        match msg {
            StreamMainMsg::StreamStopped(p) => self.handle_stream_stopped(p),
        }
    }

    /// A preloader completion. A slot moves only when it was preloading
    /// exactly the reported track. When the current slot was, the stream is
    /// handed out to be installed and played, and the track after the current
    /// one is requested for the next slot.
    pub fn handle_preloader_main_msg<S>(&mut self, msg: PreloaderMainMsg<S>) -> (r: (
        StreamCommand<S>,
        Result<(), StateError>,
    ))
        requires
            old(self).wf(),
        ensures
            final(self).wf(),
            final(self).spec_queue() == old(self).spec_queue(),
            final(self).spec_library() == old(self).spec_library(),
            msg matches PreloaderMainMsg::PreloadedTrack { id, stream } ==> {
                let next1 = on_completion(old(self).spec_next(), id);
                &&& final(self).spec_curr() == on_completion(old(self).spec_curr(), id)
                &&& old(self).spec_curr() != TrackPreloaderState::Preloading(id) ==> r.0
                    == StreamCommand::<S>::Nothing && r.1 is Ok && final(self).spec_next() == next1
                    && final(self).spec_sent() == old(self).spec_sent()
                &&& old(self).spec_curr() == TrackPreloaderState::Preloading(id) ==> r.0
                    == (StreamCommand::Start { id, stream }) && lookahead_outcome(
                    old(self).spec_queue().spec_peek_next(),
                    old(self).spec_library(),
                    next1,
                    final(self).spec_next(),
                    r.1,
                    old(self).spec_sent(),
                    final(self).spec_sent(),
                )
                &&& !(r.1 matches Err(StateError::UnknownTrack(_)))
            },
    {
        match msg {
            PreloaderMainMsg::PreloadedTrack { id, stream } => {
                if self.preloader.next == TrackPreloaderState::Preloading(id) {
                    self.preloader.next = TrackPreloaderState::Preloaded(id);
                }
                if self.preloader.curr == TrackPreloaderState::Preloading(id) {
                    self.preloader.curr = TrackPreloaderState::Preloaded(id);
                    proof {
                        self.queue.lemma_wf();
                    }
                    let lookahead = match self.queue.peek_next() {
                        Some(n) => match self.request_preload(n) {
                            Ok(()) => {
                                self.preloader.next = TrackPreloaderState::Preloading(n);
                                Ok(())
                            },
                            Err(e) => Err(e),
                        },
                        None => Ok(()),
                    };
                    (StreamCommand::Start { id, stream }, lookahead)
                } else {
                    (StreamCommand::Nothing, Ok(()))
                }
            },
        }
    }
}

/// A completion for a track other than the one a slot waits for leaves the
/// slot as it is; only the awaited track promotes it.
pub proof fn lemma_completion_needs_match(a: TrackId, b: TrackId)
    ensures
        a != b ==> on_completion(TrackPreloaderState::Preloading(a), b)
            == TrackPreloaderState::Preloading(a),
        on_completion(TrackPreloaderState::Preloading(a), a) == TrackPreloaderState::Preloaded(a),
        on_completion(TrackPreloaderState::Preloaded(a), b) == TrackPreloaderState::Preloaded(a),
        on_completion(TrackPreloaderState::NotPreloaded, b) == TrackPreloaderState::NotPreloaded,
{
}

/// The view index `next` moves the queue's cursor to.
pub open spec fn next_cursor_of(q: Queue) -> int {
    crate::queue::next_cursor(q.cursor(), q.view().len())
}

} // verus!
