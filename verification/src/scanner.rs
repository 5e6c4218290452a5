//! The disk scanner: probing a window for the first signature, and the
//! state machine that turns windows read from the source into carves.

use crate::session::{carve_path, session_dir, RecoverySession, SessionView, CARVE_CAP};
use crate::signature::{detect, detect_signature, MIN_PROBE_LEN};
use vstd::prelude::*;
use vstd::slice::slice_subrange;

verus! {

/// Number of bytes read from the source at each cursor position.
pub const WINDOW_SIZE: usize = 8192;

/// Distance between two probe positions inside a window.
pub const PROBE_STRIDE: usize = 64;

/// A probe position leaves at least this many bytes up to the end of the
/// window.
pub const PROBE_MARGIN: usize = 32;

/// Distance by which the cursor moves when a window holds no signature.
pub const MISS_STRIDE: u64 = 512;

/// Largest number of bytes carved for one hit, and the distance from a hit
/// to the next cursor position.
pub const CARVE_BLOCK: u64 = 1_048_576;

/// Offset below which hits are dropped when only deleted content is wanted.
pub const RESERVED_AREA: u64 = 524_288;

/// Whether `slide` is a position at which a window of `len` bytes is probed.
pub open spec fn is_probe_position(len: nat, slide: int) -> bool {
    0 <= slide && slide % (PROBE_STRIDE as int) == 0 && slide + PROBE_MARGIN <= len
}

/// Whether the hit at absolute offset `offset` is dropped.
pub open spec fn is_suppressed(only_deleted: bool, offset: nat) -> bool {
    only_deleted && offset < RESERVED_AREA
}

/// Whether probing `window`, read at `cursor`, at position `slide` gives a
/// hit that is kept.
pub open spec fn accepted(window: Seq<u8>, cursor: nat, only_deleted: bool, slide: int) -> bool {
    &&& is_probe_position(window.len(), slide)
    &&& detect(window.skip(slide)) is Some
    &&& !is_suppressed(only_deleted, (cursor + slide) as nat)
}

/// The first accepted position at or after `slide`, going by steps of
/// [`PROBE_STRIDE`].
pub open spec fn first_hit_from(
    window: Seq<u8>,
    cursor: nat,
    only_deleted: bool,
    slide: int,
) -> Option<int>
    decreases window.len() + PROBE_STRIDE - slide,
{
    if slide < 0 || slide + PROBE_MARGIN > window.len() {
        None
    } else if detect(window.skip(slide)) is Some && !is_suppressed(
        only_deleted,
        (cursor + slide) as nat,
    ) {
        Some(slide)
    } else {
        first_hit_from(window, cursor, only_deleted, slide + PROBE_STRIDE)
    }
}

/// The first accepted position of `window`, if it has one.
pub open spec fn first_hit(window: Seq<u8>, cursor: nat, only_deleted: bool) -> Option<int> {
    first_hit_from(window, cursor, only_deleted, 0)
}

/// [`first_hit_from`] gives the least accepted position that is not below
/// its starting position, and `None` only when there is none.
pub proof fn lemma_first_hit_from(window: Seq<u8>, cursor: nat, only_deleted: bool, slide: int)
    requires
        0 <= slide,
        slide % (PROBE_STRIDE as int) == 0,
    ensures
        match first_hit_from(window, cursor, only_deleted, slide) {
            Some(hit) => {
                &&& slide <= hit
                &&& accepted(window, cursor, only_deleted, hit)
                &&& forall|t: int|
                    slide <= t < hit ==> !accepted(window, cursor, only_deleted, t)
            },
            None => forall|t: int| slide <= t ==> !accepted(window, cursor, only_deleted, t),
        },
    decreases window.len() + PROBE_STRIDE - slide,
{
    if slide + PROBE_MARGIN > window.len() {
    } else if detect(window.skip(slide)) is Some && !is_suppressed(
        only_deleted,
        (cursor + slide) as nat,
    ) {
    } else {
        lemma_first_hit_from(window, cursor, only_deleted, slide + PROBE_STRIDE);
        assert forall|t: int| slide < t < slide + PROBE_STRIDE implies !accepted(
            window,
            cursor,
            only_deleted,
            t,
        ) by {
            if t % (PROBE_STRIDE as int) == 0 {
                assert(false);
            }
        }
    }
}

/// First match wins: the position that [`first_hit`] gives is accepted and
/// no position before it is; where it gives none, no position is accepted.
pub proof fn lemma_first_hit(window: Seq<u8>, cursor: nat, only_deleted: bool)
    ensures
        match first_hit(window, cursor, only_deleted) {
            Some(hit) => {
                &&& accepted(window, cursor, only_deleted, hit)
                &&& forall|t: int| t < hit ==> !accepted(window, cursor, only_deleted, t)
            },
            None => forall|t: int| !accepted(window, cursor, only_deleted, t),
        },
{
    lemma_first_hit_from(window, cursor, only_deleted, 0);
}

/// A kept hit inside a window.
#[derive(Clone, Copy)]
pub struct Hit {
    /// Position of the hit inside the window.
    pub slide: usize,
    /// Extension token that the detector gave for it.
    pub extension: &'static str,
}

/// Slides the detector across `window`, which was read at `cursor`, and
/// returns the first hit that is kept.
pub fn probe_window(window: &[u8], cursor: u64, only_deleted: bool) -> (hit: Option<Hit>)
    ensures
        match hit {
            Some(h) => {
                &&& first_hit(window@, cursor as nat, only_deleted) == Some(h.slide as int)
                &&& detect(window@.skip(h.slide as int)) == Some(h.extension@)
            },
            None => first_hit(window@, cursor as nat, only_deleted) is None,
        },
{
    let len = window.len();
    let mut slide: usize = 0;
    while len >= PROBE_MARGIN && slide <= len - PROBE_MARGIN
        invariant
            len == window@.len(),
            slide <= len,
            first_hit(window@, cursor as nat, only_deleted) == first_hit_from(
                window@,
                cursor as nat,
                only_deleted,
                slide as int,
            ),
        decreases len - slide,
    {
        let suppressed = only_deleted && cursor < RESERVED_AREA && (slide as u64) < RESERVED_AREA
            - cursor;
        if !suppressed {
            let rest = slice_subrange(window, slide, len);
            assert(rest@ == window@.skip(slide as int));
            match detect_signature(rest) {
                Some(extension) => {
                    return Some(Hit { slide, extension });
                },
                None => {},
            }
        }
        if len - slide < PROBE_STRIDE + PROBE_MARGIN {
            proof {
                assert(first_hit_from(
                    window@,
                    cursor as nat,
                    only_deleted,
                    slide + PROBE_STRIDE,
                ) is None);
            }
            return None;
        }
        slide += PROBE_STRIDE;
    }
    None
}

/// Where the scanner stands.
pub enum Phase {
    /// A window is to be read at the cursor.
    Scanning,
    /// A hit was found at `offset`; its bytes are to be carved.
    Carving { offset: nat, extension: Seq<char> },
    /// The scan is over.
    Done,
}

/// The scanner's state, as plain values.
pub struct ScanState {
    pub session: SessionView,
    pub cursor: nat,
    pub phase: Phase,
}

/// Whether a full window read at `cursor` lies inside the offsets that the
/// machine can address.
pub open spec fn window_addressable(cursor: nat) -> bool {
    cursor + WINDOW_SIZE <= u64::MAX
}

impl ScanState {
    /// The state in which a scan starts: at offset zero, about to read.
    pub open spec fn start(session: SessionView) -> ScanState {
        ScanState { session, cursor: 0, phase: Phase::Scanning }
    }

    /// The state after the cursor has been set to `next`. The scan is over
    /// if the cap on carved files has been reached, or if no full window can
    /// be addressed at `next` (a read there could only be short).
    pub open spec fn advanced(self, next: nat) -> ScanState {
        if !window_addressable(next) {
            ScanState { phase: Phase::Done, ..self }
        } else if self.session.capped() {
            ScanState { cursor: next, phase: Phase::Done, ..self }
        } else {
            ScanState { cursor: next, phase: Phase::Scanning, ..self }
        }
    }

    /// The state after `window` has been read at the cursor. A short read
    /// ends the scan. The first kept hit of a full window is to be carved.
    /// A full window without one moves the cursor by [`MISS_STRIDE`].
    pub open spec fn after_window(self, window: Seq<u8>) -> ScanState
        recommends
            self.phase is Scanning,
    {
        if window.len() < WINDOW_SIZE {
            ScanState { phase: Phase::Done, ..self }
        } else {
            match first_hit(window, self.cursor, self.session.only_deleted) {
                Some(slide) => ScanState {
                    phase: Phase::Carving {
                        offset: (self.cursor + slide) as nat,
                        extension: detect(window.skip(slide))->0,
                    },
                    ..self
                },
                None => self.advanced((self.cursor + MISS_STRIDE) as nat),
            }
        }
    }

    /// The state after the pending carve has been tried. A carve whose file
    /// was written counts; one whose file could not be written does not.
    /// Either way the cursor moves [`CARVE_BLOCK`] past the hit.
    pub open spec fn after_carve(self, written: bool) -> ScanState
        recommends
            self.phase is Carving,
    {
        let session = if written {
            self.session.with_one_more()
        } else {
            self.session
        };
        ScanState { session, ..self }.advanced((self.phase->offset + CARVE_BLOCK) as nat)
    }

    /// What holds of every state that a scan reaches from its start.
    pub open spec fn wf(self) -> bool {
        &&& self.session.output_dir == session_dir(self.session.id)
        &&& !self.session.all ==> self.session.carved <= CARVE_CAP
        &&& self.session.carved <= u64::MAX
        &&& self.cursor <= u64::MAX
        &&& !(self.phase is Done) ==> {
            &&& !self.session.capped()
            &&& window_addressable(self.cursor)
            &&& self.session.carved * CARVE_BLOCK <= self.cursor
        }
        &&& self.phase matches Phase::Carving { offset, extension } ==> {
            &&& self.cursor <= offset
            &&& offset + MIN_PROBE_LEN <= self.cursor + WINDOW_SIZE
            &&& !is_suppressed(self.session.only_deleted, offset)
        }
    }
}

/// Where the scanner stands, in executable form.
#[derive(Clone, Copy)]
pub enum ScanPhase {
    /// A window is to be read at the cursor.
    Scanning,
    /// A hit was found at `offset`; its bytes are to be carved.
    Carving { offset: u64, extension: &'static str },
    /// The scan is over.
    Done,
}

impl View for ScanPhase {
    type V = Phase;

    open spec fn view(&self) -> Phase {
        match *self {
            ScanPhase::Scanning => Phase::Scanning,
            ScanPhase::Carving { offset, extension } => Phase::Carving {
                offset: offset as nat,
                extension: extension@,
            },
            ScanPhase::Done => Phase::Done,
        }
    }
}

/// What the caller is to do next.
pub enum Directive {
    /// Read [`WINDOW_SIZE`] bytes at `offset` and hand them to
    /// [`Scanner::window_read`].
    ReadWindow { offset: u64 },
    /// Read up to [`CARVE_BLOCK`] bytes at `offset`, write them to `path`,
    /// and report to [`Scanner::carve_finished`] whether the file was written.
    Carve { offset: u64, extension: &'static str, path: String },
    /// Stop: the scan is over.
    Finish,
}

/// Whether `directive` is what the state `state` asks of the caller.
pub open spec fn directive_for(state: ScanState, directive: Directive) -> bool {
    match state.phase {
        Phase::Scanning => directive matches Directive::ReadWindow { offset }
            && offset == state.cursor,
        Phase::Carving { offset, extension } => directive matches Directive::Carve {
            offset: o,
            extension: e,
            path,
        } && o == offset && e@ == extension && path@ == carve_path(
            state.session.output_dir,
            state.session.carved,
            offset,
            extension,
        ),
        Phase::Done => directive is Finish,
    }
}

/// The scanner: the session it fills, the cursor, and the phase.
pub struct Scanner {
    session: RecoverySession,
    cursor: u64,
    phase: ScanPhase,
}

impl View for Scanner {
    type V = ScanState;

    closed spec fn view(&self) -> ScanState {
        ScanState { session: self.session@, cursor: self.cursor as nat, phase: self.phase@ }
    }
}

impl Scanner {
    /// Whether the scanner is in a state that a scan reaches from its start.
    pub open spec fn wf(&self) -> bool {
        self@.wf()
    }

    /// Starts a scan that fills `session`.
    pub fn new(session: RecoverySession) -> (scanner: Scanner)
        requires
            session.wf(),
            session@.carved == 0,
        ensures
            scanner@ == ScanState::start(session@),
            scanner.wf(),
    {
        Scanner { session, cursor: 0, phase: ScanPhase::Scanning }
    }

    /// The offset at which the next window is read.
    pub fn cursor(&self) -> (cursor: u64)
        ensures
            cursor == self@.cursor,
    {
        self.cursor
    }

    /// The phase the scanner is in.
    pub fn phase(&self) -> (phase: ScanPhase)
        ensures
            phase@ == self@.phase,
    {
        self.phase
    }

    /// The session that the scanner fills.
    pub fn session(&self) -> (session: &RecoverySession)
        ensures
            session@ == self@.session,
    {
        &self.session
    }

    /// Ends the scanner's work and hands the session back.
    pub fn into_session(self) -> (session: RecoverySession)
        requires
            self.wf(),
        ensures
            session@ == self@.session,
            session.wf(),
    {
        self.session
    }

    /// What the caller is to do next.
    pub fn directive(&self) -> (directive: Directive)
        ensures
            directive_for(self@, directive),
    {
        match self.phase {
            ScanPhase::Scanning => Directive::ReadWindow { offset: self.cursor },
            ScanPhase::Carving { offset, extension } => Directive::Carve {
                offset,
                extension,
                path: self.session.next_carve_path(offset, extension),
            },
            ScanPhase::Done => Directive::Finish,
        }
    }

    /// Sets the cursor to `next` and decides whether the scan goes on.
    fn advance(&mut self, next: Option<u64>)
        ensures
            final(self)@ == (match next {
                Some(n) => old(self)@.advanced(n as nat),
                None => ScanState { phase: Phase::Done, ..old(self)@ },
            }),
    {
        match next {
            Some(n) => {
                if n > u64::MAX - (WINDOW_SIZE as u64) {
                    self.phase = ScanPhase::Done;
                } else if self.session.capped() {
                    self.cursor = n;
                    self.phase = ScanPhase::Done;
                } else {
                    self.cursor = n;
                    self.phase = ScanPhase::Scanning;
                }
            },
            None => {
                self.phase = ScanPhase::Done;
            },
        }
    }

    /// Takes the window that was read at the cursor and moves on: to the
    /// end of the scan after a short read, to a carve at the first kept hit,
    /// or to the next cursor position.
    pub fn window_read(&mut self, window: &[u8]) -> (directive: Directive)
        requires
            old(self).wf(),
            old(self)@.phase is Scanning,
            window@.len() <= WINDOW_SIZE,
        ensures
            final(self)@ == old(self)@.after_window(window@),
            final(self).wf(),
            directive_for(final(self)@, directive),
    {
        if window.len() < WINDOW_SIZE {
            self.phase = ScanPhase::Done;
        } else {
            match probe_window(window, self.cursor, self.session.only_deleted()) {
                Some(hit) => {
                    proof {
                        lemma_first_hit(window@, self.cursor as nat, self@.session.only_deleted);
                    }
                    self.phase = ScanPhase::Carving {
                        offset: self.cursor + hit.slide as u64,
                        extension: hit.extension,
                    };
                },
                None => {
                    let next = self.cursor.checked_add(MISS_STRIDE);
                    self.advance(next);
                },
            }
        }
        self.directive()
    }

    /// Takes the outcome of the pending carve (`written` says whether its
    /// file was written), counts it if it was, and moves the cursor
    /// [`CARVE_BLOCK`] past the hit.
    pub fn carve_finished(&mut self, written: bool) -> (directive: Directive)
        requires
            old(self).wf(),
            old(self)@.phase is Carving,
        ensures
            final(self)@ == old(self)@.after_carve(written),
            final(self).wf(),
            directive_for(final(self)@, directive),
    {
        match self.phase {
            ScanPhase::Carving { offset, extension } => {
                if written {
                    self.session.record_carve();
                }
                let next = offset.checked_add(CARVE_BLOCK);
                self.advance(next);
            },
            _ => {},
        }
        self.directive()
    }
}

/// One carve, as plain values.
pub struct CarveView {
    pub offset: nat,
    pub extension: Seq<char>,
    pub length: nat,
    pub path: Seq<char>,
}

/// One carve: where the hit was found, the extension token the detector
/// gave, the number of bytes written and the path of the output file.
pub struct CarveResult {
    pub offset: u64,
    pub extension: &'static str,
    pub length: usize,
    pub path: String,
}

impl View for CarveResult {
    type V = CarveView;

    open spec fn view(&self) -> CarveView {
        CarveView {
            offset: self.offset as nat,
            extension: self.extension@,
            length: self.length as nat,
            path: self.path@,
        }
    }
}

/// The views of a sequence of carves.
pub open spec fn carve_views(carves: Seq<CarveResult>) -> Seq<CarveView> {
    Seq::new(carves.len(), |i: int| carves[i]@)
}

/// What a read of [`WINDOW_SIZE`] bytes at `cursor` gives on `image`: a
/// full window where the image has one, else what is left of the image.
pub open spec fn window_at(image: Seq<u8>, cursor: nat) -> Seq<u8> {
    if cursor >= image.len() {
        Seq::<u8>::empty()
    } else if cursor + WINDOW_SIZE <= image.len() {
        image.subrange(cursor as int, cursor + WINDOW_SIZE)
    } else {
        image.skip(cursor as int)
    }
}

/// The number of bytes carved for a hit at `offset` in an image of
/// `image_len` bytes: a full block, or what is left of the image.
pub open spec fn carve_length(image_len: nat, offset: nat) -> nat {
    if offset + CARVE_BLOCK <= image_len {
        CARVE_BLOCK as nat
    } else {
        (image_len - offset) as nat
    }
}

/// The carve that a state in the carving phase asks for on `image`.
pub open spec fn pending_carve(image: Seq<u8>, state: ScanState) -> CarveView
    recommends
        state.phase is Carving,
{
    CarveView {
        offset: state.phase->offset,
        extension: state.phase->extension,
        length: carve_length(image.len(), state.phase->offset),
        path: carve_path(
            state.session.output_dir,
            state.session.carved,
            state.phase->offset,
            state.phase->extension,
        ),
    }
}

/// The bytes of `image` that a carve holds.
pub open spec fn carved_bytes(image: Seq<u8>, carve: CarveView) -> Seq<u8> {
    image.subrange(carve.offset as int, (carve.offset + carve.length) as int)
}

/// A bound on the number of steps that a scan of an image of `image_len`
/// bytes still takes from `state`.
pub open spec fn steps_left(image_len: nat, state: ScanState) -> nat {
    let distance = if state.cursor < image_len {
        (image_len - state.cursor) as nat
    } else {
        0nat
    };
    3 * distance + match state.phase {
        Phase::Scanning => 2nat,
        Phase::Carving { .. } => 1nat,
        Phase::Done => 0nat,
    }
}

/// The carves that a scan of `image` makes from `state` on, every output
/// file being written.
pub open spec fn run(image: Seq<u8>, state: ScanState) -> Seq<CarveView>
    decreases steps_left(image.len(), state),
{
    match state.phase {
        Phase::Done => Seq::<CarveView>::empty(),
        Phase::Scanning => run(image, state.after_window(window_at(image, state.cursor))),
        Phase::Carving { offset, extension } => if state.cursor <= offset && offset < image.len() {
            seq![pending_carve(image, state)] + run(image, state.after_carve(true))
        } else {
            Seq::<CarveView>::empty()
        },
    }
}

/// The carves of a whole scan of `image` for the session `session`.
pub open spec fn scan(image: Seq<u8>, session: SessionView) -> Seq<CarveView> {
    run(image, ScanState::start(session))
}

/// Reading a window keeps the state well formed, leaves the session as it
/// was and never moves the cursor back; where the scan goes on reading, the
/// cursor has moved forward by [`MISS_STRIDE`].
pub proof fn lemma_after_window(state: ScanState, window: Seq<u8>)
    requires
        state.wf(),
        state.phase is Scanning,
        window.len() <= WINDOW_SIZE,
    ensures
        state.after_window(window).wf(),
        state.after_window(window).session == state.session,
        state.after_window(window).cursor >= state.cursor,
        state.after_window(window).phase is Scanning ==> state.after_window(window).cursor
            == state.cursor + MISS_STRIDE,
        state.after_window(window).phase is Carving ==> window.len() == WINDOW_SIZE
            && state.after_window(window).cursor == state.cursor,
{
    lemma_first_hit(window, state.cursor, state.session.only_deleted);
}

/// Finishing a carve keeps the state well formed and never moves the cursor
/// back; where the scan goes on reading, the cursor stands [`CARVE_BLOCK`]
/// past the hit, and so past where it stood.
pub proof fn lemma_after_carve(state: ScanState, written: bool)
    requires
        state.wf(),
        state.phase is Carving,
    ensures
        state.after_carve(written).wf(),
        !(state.after_carve(written).phase is Carving),
        state.after_carve(written).cursor >= state.cursor,
        state.after_carve(written).session.carved == state.session.carved + if written {
            1nat
        } else {
            0nat
        },
        state.after_carve(written).phase is Scanning ==> state.after_carve(written).cursor
            == state.phase->offset + CARVE_BLOCK,
{
}

/// Whether the detector gives `extension` for the bytes of `image` that
/// start at `offset` and run to the end of a window that holds them: a
/// slice of at least [`MIN_PROBE_LEN`] and at most [`WINDOW_SIZE`] bytes.
pub open spec fn is_detected_at(image: Seq<u8>, offset: nat, extension: Seq<char>) -> bool {
    exists|end: int|
        offset + MIN_PROBE_LEN <= end <= offset + WINDOW_SIZE && end <= image.len()
            && #[trigger] detect(image.subrange(offset as int, end)) == Some(extension)
}

/// The least offset at which a scan that stands in `state` can still carve.
pub open spec fn carve_floor(state: ScanState) -> nat {
    match state.phase {
        Phase::Carving { offset, .. } => offset,
        _ => state.cursor,
    }
}

/// What holds of the carves that a scan makes from a well-formed state on:
/// none lies below the state's floor; each starts at least [`CARVE_BLOCK`]
/// after the one before; each lies inside the image, holds at least
/// [`MIN_PROBE_LEN`] and at most [`CARVE_BLOCK`] bytes, and is named by the
/// session's directory, its number in the run, its offset and its extension;
/// each has the extension that the detector gives at its offset; none lies
/// in the reserved area when only deleted content is wanted; and the
/// counter never passes the cap unless `all` is set.
pub proof fn lemma_run(image: Seq<u8>, state: ScanState)
    requires
        state.wf(),
        state.phase is Carving ==> state.cursor + WINDOW_SIZE <= image.len(),
        state.phase is Carving ==> is_detected_at(
            image,
            state.phase->offset,
            state.phase->extension,
        ),
    ensures
        forall|i: int|
            0 <= i < run(image, state).len() ==> is_detected_at(
                image,
                (#[trigger] run(image, state)[i]).offset,
                run(image, state)[i].extension,
            ),
        forall|i: int|
            0 <= i < run(image, state).len() ==> carve_floor(state) <= (#[trigger] run(
                image,
                state,
            )[i]).offset,
        forall|i: int, j: int|
            0 <= i < j < run(image, state).len() ==> (#[trigger] run(image, state)[i]).offset
                + CARVE_BLOCK <= (#[trigger] run(image, state)[j]).offset,
        forall|i: int|
            0 <= i < run(image, state).len() ==> {
                let carve = #[trigger] run(image, state)[i];
                &&& carve.offset + carve.length <= image.len()
                &&& carve.length == carve_length(image.len(), carve.offset)
                &&& MIN_PROBE_LEN <= carve.length <= CARVE_BLOCK
                &&& carve.path == carve_path(
                    state.session.output_dir,
                    (state.session.carved + i) as nat,
                    carve.offset,
                    carve.extension,
                )
                &&& !is_suppressed(state.session.only_deleted, carve.offset)
            },
        !state.session.all ==> state.session.carved + run(image, state).len()
            <= CARVE_CAP,
    decreases steps_left(image.len(), state),
{
    match state.phase {
        Phase::Done => {},
        Phase::Scanning => {
            let window = window_at(image, state.cursor);
            let next = state.after_window(window);
            lemma_after_window(state, window);
            if next.phase is Carving {
                lemma_first_hit(window, state.cursor, state.session.only_deleted);
                let slide = first_hit(window, state.cursor, state.session.only_deleted)->0;
                let end = state.cursor + WINDOW_SIZE;
                assert(window.skip(slide) =~= image.subrange(state.cursor + slide, end));
                assert(detect(image.subrange(next.phase->offset as int, end)) == Some(
                    next.phase->extension,
                ));
            }
            lemma_run(image, next);
        },
        Phase::Carving { offset, extension } => {
            let next = state.after_carve(true);
            let rest = run(image, next);
            let all = run(image, state);
            lemma_after_carve(state, true);
            lemma_run(image, next);
            assert(all =~= seq![pending_carve(image, state)] + rest);
            assert(all[0] == pending_carve(image, state));
            assert forall|i: int| 1 <= i < all.len() implies all[i] == rest[i - 1] by {}
            assert(rest.len() > 0 ==> next.phase is Scanning);
            assert forall|i: int, j: int| 0 <= i < j < all.len() implies (#[trigger] all[i]).offset
                + CARVE_BLOCK <= (#[trigger] all[j]).offset by {
                assert(all[j] == rest[j - 1]);
                if i > 0 {
                    assert(all[i] == rest[i - 1]);
                }
            }
            assert forall|i: int| 0 <= i < all.len() implies is_detected_at(
                image,
                (#[trigger] all[i]).offset,
                all[i].extension,
            ) by {
                if i > 0 {
                    assert(all[i] == rest[i - 1]);
                }
            }
            assert forall|i: int| 0 <= i < all.len() implies {
                let carve = #[trigger] all[i];
                &&& carve.offset + carve.length <= image.len()
                &&& carve.length == carve_length(image.len(), carve.offset)
                &&& MIN_PROBE_LEN <= carve.length <= CARVE_BLOCK
                &&& carve.path == carve_path(
                    state.session.output_dir,
                    (state.session.carved + i) as nat,
                    carve.offset,
                    carve.extension,
                )
                &&& !is_suppressed(state.session.only_deleted, carve.offset)
            } by {
                if i > 0 {
                    assert(all[i] == rest[i - 1]);
                    assert((next.session.carved + (i - 1)) as nat == (state.session.carved
                        + i) as nat);
                }
            }
        },
    }
}

/// Runs a whole scan over an image held in memory, every output file being
/// taken as written, and returns the carves in the order they are made.
/// Unless `all` is set there are at most [`CARVE_CAP`] of them; each starts
/// at least [`CARVE_BLOCK`] after the one before; and none starts below
/// [`RESERVED_AREA`] when only deleted content is wanted.
pub fn scan_image(image: &[u8], session: RecoverySession) -> (carves: Vec<CarveResult>)
    requires
        session.wf(),
        session@.carved == 0,
    ensures
        carve_views(carves@) == scan(image@, session@),
        !session@.all ==> carves@.len() <= CARVE_CAP,
        forall|i: int, j: int|
            0 <= i < j < carves@.len() ==> (#[trigger] carves@[i]).offset + CARVE_BLOCK <= (
            #[trigger] carves@[j]).offset,
        forall|i: int|
            0 <= i < carves@.len() ==> {
                &&& (#[trigger] carves@[i]).offset + carves@[i].length <= image@.len()
                &&& session@.only_deleted ==> carves@[i].offset >= RESERVED_AREA
            },
{
    let len = image.len();
    let mut scanner = Scanner::new(session);
    let mut carves: Vec<CarveResult> = Vec::new();
    let mut directive = scanner.directive();
    proof {
        assert(carve_views(carves@) + run(image@, scanner@) =~= run(image@, scanner@));
    }
    loop
        invariant
            len == image@.len(),
            scanner.wf(),
            directive_for(scanner@, directive),
            scanner@.phase is Carving ==> scanner@.cursor + WINDOW_SIZE <= image@.len(),
            scan(image@, session@) == carve_views(carves@) + run(image@, scanner@),
        ensures
            scan(image@, session@) == carve_views(carves@),
        decreases steps_left(image@.len(), scanner@),
    {
        let ghost before = scanner@;
        match directive {
            Directive::Finish => {
                proof {
                    assert(carve_views(carves@) + run(image@, scanner@) =~= carve_views(carves@));
                }
                break ;
            },
            Directive::ReadWindow { offset } => {
                let window = if offset >= len as u64 {
                    slice_subrange(image, len, len)
                } else {
                    let start = offset as usize;
                    let end = if len - start >= WINDOW_SIZE {
                        start + WINDOW_SIZE
                    } else {
                        len
                    };
                    slice_subrange(image, start, end)
                };
                assert(window@ =~= window_at(image@, before.cursor));
                proof {
                    lemma_after_window(before, window@);
                }
                directive = scanner.window_read(window);
            },
            Directive::Carve { offset, extension, path } => {
                let start = offset as usize;
                let length = if len - start >= CARVE_BLOCK as usize {
                    CARVE_BLOCK as usize
                } else {
                    len - start
                };
                let ghost earlier = carves@;
                let carve = CarveResult { offset, extension, length, path };
                assert(carve@ == pending_carve(image@, before));
                carves.push(carve);
                proof {
                    lemma_after_carve(before, true);
                    assert(carve_views(carves@) =~= carve_views(earlier) + seq![
                        pending_carve(image@, before),
                    ]);
                    assert(carve_views(carves@) + run(image@, before.after_carve(true))
                        =~= carve_views(earlier) + run(image@, before));
                }
                directive = scanner.carve_finished(true);
            },
        }
    }
    proof {
        let all = scan(image@, session@);
        lemma_run(image@, ScanState::start(session@));
        assert forall|i: int| 0 <= i < carves@.len() implies all[i] == (#[trigger] carves@[i])@ by {
            assert(carve_views(carves@)[i] == carves@[i]@);
        }
        assert forall|i: int, j: int| 0 <= i < j < carves@.len() implies (#[trigger] carves@[i]).offset
            + CARVE_BLOCK <= (#[trigger] carves@[j]).offset by {
            assert(all[i] == carves@[i]@ && all[j] == carves@[j]@);
        }
    }
    carves
}

/// Two carves of one scan are never closer together than [`CARVE_BLOCK`]:
/// each starts at least that far after the one before it.
pub proof fn lemma_scan_carves_apart(image: Seq<u8>, session: SessionView, i: int, j: int)
    requires
        session == SessionView::fresh(session.id, session.all, session.only_deleted),
        0 <= i < j < scan(image, session).len(),
    ensures
        scan(image, session)[i].offset + CARVE_BLOCK <= scan(image, session)[j].offset,
{
    lemma_run(image, ScanState::start(session));
}

/// When only deleted content is wanted, no carve of a scan starts below
/// [`RESERVED_AREA`].
pub proof fn lemma_scan_skips_reserved_area(image: Seq<u8>, session: SessionView, i: int)
    requires
        session == SessionView::fresh(session.id, session.all, session.only_deleted),
        session.only_deleted,
        0 <= i < scan(image, session).len(),
    ensures
        scan(image, session)[i].offset >= RESERVED_AREA,
{
    lemma_run(image, ScanState::start(session));
}

/// Unless `all` is set, a scan carves at most [`CARVE_CAP`]
/// files.
pub proof fn lemma_scan_is_capped(image: Seq<u8>, session: SessionView)
    requires
        session == SessionView::fresh(session.id, session.all, session.only_deleted),
        !session.all,
    ensures
        scan(image, session).len() <= CARVE_CAP,
{
    lemma_run(image, ScanState::start(session));
}

/// Every carve of a scan lies inside the image, holds a full block or what
/// is left of the image, has the extension that the detector gives at its
/// offset, and is named by the session's directory, its number in the run,
/// its offset and its extension.
pub proof fn lemma_scan_carve_shape(image: Seq<u8>, session: SessionView, i: int)
    requires
        session == SessionView::fresh(session.id, session.all, session.only_deleted),
        0 <= i < scan(image, session).len(),
    ensures
        scan(image, session)[i].offset + scan(image, session)[i].length <= image.len(),
        scan(image, session)[i].length == carve_length(image.len(), scan(image, session)[i].offset),
        MIN_PROBE_LEN <= scan(image, session)[i].length <= CARVE_BLOCK,
        is_detected_at(image, scan(image, session)[i].offset, scan(image, session)[i].extension),
        carved_bytes(image, scan(image, session)[i]).len() == scan(image, session)[i].length,
        scan(image, session)[i].path == carve_path(
            session.output_dir,
            i as nat,
            scan(image, session)[i].offset,
            scan(image, session)[i].extension,
        ),
{
    lemma_run(image, ScanState::start(session));
}

/// Whether two states differ at most in the identifier and the directory
/// of their sessions.
pub open spec fn same_but_identity(a: ScanState, b: ScanState) -> bool {
    &&& a.cursor == b.cursor
    &&& a.phase == b.phase
    &&& a.session.carved == b.session.carved
    &&& a.session.all == b.session.all
    &&& a.session.only_deleted == b.session.only_deleted
}

/// Whether two carves hold the same bytes of an image under the same
/// extension: they differ at most in the path of their output file.
pub open spec fn same_content(a: CarveView, b: CarveView) -> bool {
    a.offset == b.offset && a.extension == b.extension && a.length == b.length
}

/// What is carved does not depend on the identity of the session: from two
/// states that differ in nothing else, a scan makes the same carves.
pub proof fn lemma_run_ignores_identity(image: Seq<u8>, a: ScanState, b: ScanState)
    requires
        same_but_identity(a, b),
    ensures
        run(image, a).len() == run(image, b).len(),
        forall|i: int|
            0 <= i < run(image, a).len() ==> same_content(
                #[trigger] run(image, a)[i],
                run(image, b)[i],
            ),
    decreases steps_left(image.len(), a),
{
    match a.phase {
        Phase::Done => {},
        Phase::Scanning => {
            let window = window_at(image, a.cursor);
            lemma_run_ignores_identity(image, a.after_window(window), b.after_window(window));
        },
        Phase::Carving { offset, extension } => {
            if a.cursor <= offset && offset < image.len() {
                let rest_a = run(image, a.after_carve(true));
                let rest_b = run(image, b.after_carve(true));
                lemma_run_ignores_identity(image, a.after_carve(true), b.after_carve(true));
                assert(run(image, a) =~= seq![pending_carve(image, a)] + rest_a);
                assert(run(image, b) =~= seq![pending_carve(image, b)] + rest_b);
                assert forall|i: int| 0 <= i < run(image, a).len() implies same_content(
                    #[trigger] run(image, a)[i],
                    run(image, b)[i],
                ) by {
                    if i > 0 {
                        assert(run(image, a)[i] == rest_a[i - 1]);
                        assert(run(image, b)[i] == rest_b[i - 1]);
                    }
                }
            }
        },
    }
}

/// Two runs over one image with the same flags carve the same bytes under
/// the same extensions, whatever their sessions' identifiers are.
pub proof fn lemma_scan_is_repeatable(image: Seq<u8>, first: SessionView, second: SessionView)
    requires
        first == SessionView::fresh(first.id, first.all, first.only_deleted),
        second == SessionView::fresh(second.id, first.all, first.only_deleted),
    ensures
        scan(image, first).len() == scan(image, second).len(),
        forall|i: int|
            0 <= i < scan(image, first).len() ==> {
                &&& same_content(#[trigger] scan(image, first)[i], scan(image, second)[i])
                &&& carved_bytes(image, scan(image, first)[i]) == carved_bytes(
                    image,
                    scan(image, second)[i],
                )
            },
{
    lemma_run_ignores_identity(image, ScanState::start(first), ScanState::start(second));
}

} // verus!
