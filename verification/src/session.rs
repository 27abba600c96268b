//! Sessions: how a document is shown, and when it is read and drawn again.
use crate::block::{Block, BlockV, ImageV, RenderedImage};
use crate::markdown::{blocks_of, is_fresh, law_blocks_are_fresh};
use crate::mermaid::{
    jobs_of, law_jobs_are_the_pending_diagrams, pending_jobs, place_image, placed,
};
use crate::parser::document;
use crate::render::render_markdown_fast;
use crate::text::{contains, contains_text, law_contains_what_stands_in_it};
use vstd::prelude::*;

verus! {

/// What clears the screen and moves the cursor to its upper left corner.
pub const CLEAR_SCREEN: &'static str = "\x1b[2J\x1b[H";

/// The columns and rows of a terminal that does not tell its size.
pub const DEFAULT_SIZE: (u16, u16) = (80, 24);

/// How long to wait for a change before the size of the terminal is looked at, in milliseconds.
pub const CAT_POLL_MILLIS: u64 = 250;

/// How long a printed document is not read again after what was read is on the screen, in
/// nanoseconds.
pub const CAT_RELOAD_DELAY: u128 = 200_000_000;

/// How long an interactive document is not read again after it was read, in nanoseconds.
pub const TUI_RELOAD_DELAY: u128 = 100_000_000;

/// A text in lower case.
pub uninterp spec fn lowercase_of(text: Seq<char>) -> Seq<char>;

/// Calls `str::to_lowercase` of the standard library: the text in lower case, which depends on
/// nothing but the text.
#[verifier::external_body]
fn to_lowercase(text: &str) -> (r: String)
    ensures
        r@ == lowercase_of(text@),
{
    text.to_lowercase()
}

/// Whether the name of a terminal type is one that has the Kitty graphics protocol.
pub open spec fn is_kitty_type(term: Seq<char>) -> bool {
    contains_text(term, "kitty"@)
}

/// Whether the name of a terminal program, in lower case, is one that has the Kitty graphics
/// protocol.
pub open spec fn is_kitty_program(program: Seq<char>) -> bool {
    contains_text(program, "wezterm"@) || contains_text(program, "ghostty"@)
}

/// Whether the name of a terminal program, in lower case, is one that has the Kitty graphics
/// protocol.
pub fn known_program(program: &str) -> (r: bool)
    ensures
        r == is_kitty_program(program@),
{
    contains(program, "wezterm") || contains(program, "ghostty")
}

/// Check if terminal supports Kitty graphics protocol. `term` is its type, `program` its program,
/// and `window_id` says whether it has given its window an id.
pub fn supports_kitty(term: Option<&str>, window_id: bool, program: Option<&str>) -> (r: bool)
    ensures
        r == ((term is Some && is_kitty_type(term->0@)) || window_id || (program is Some
            && is_kitty_program(lowercase_of(program->0@)))),
{
    if let Some(term) = term {
        if contains(term, "kitty") {
            return true;
        }
    }
    if window_id {
        return true;
    }
    if let Some(program) = program {
        let lower = to_lowercase(program);
        if known_program(lower.as_str()) {
            return true;
        }
    }
    false
}

/// Mode selection: `tui` and `cat` force interactive and cat mode, and `tui` goes first; else it is
/// interactive mode on terminals with the Kitty graphics protocol.
pub fn use_tui(tui: bool, cat: bool, kitty: bool) -> (r: bool)
    ensures
        r == (tui || (!cat && kitty)),
{
    if tui {
        true
    } else if cat {
        false
    } else {
        kitty
    }
}

/// Whether more than `delay` has passed since `last`.
pub open spec fn is_due(last: u128, now: u128, delay: u128) -> bool {
    now - last > delay
}

/// Whether more than `delay` has passed since `last`.
fn reload_due(last: u128, now: u128, delay: u128) -> (r: bool)
    ensures
        r == is_due(last, now, delay),
{
    now >= last && now - last > delay
}

/// A printed document: its content, when what was last read was on the screen, and the size of the
/// terminal when that was last looked at. Times are in nanoseconds from some start.
pub struct CatSession {
    pub content: String,
    pub last_reload: u128,
    pub last_size: (u16, u16),
}

/// The mathematical value of a [`CatSession`].
pub struct CatSessionV {
    pub content: Seq<char>,
    pub last_reload: u128,
    pub last_size: (u16, u16),
}

impl View for CatSession {
    type V = CatSessionV;

    open spec fn view(&self) -> CatSessionV {
        CatSessionV {
            content: self.content@,
            last_reload: self.last_reload,
            last_size: self.last_size,
        }
    }
}

/// What happens to a printed document: its file changed, it was read, what was read is on the
/// screen, nothing happened for a while and the terminal has some size, or there will be no more
/// changes.
pub enum CatEvent {
    Changed { now: u128 },
    Loaded { content: String },
    Shown { now: u128 },
    Idle { size: (u16, u16) },
    Closed,
}

/// The mathematical value of a [`CatEvent`].
pub enum CatEventV {
    Changed { now: u128 },
    Loaded { content: Seq<char> },
    Shown { now: u128 },
    Idle { size: (u16, u16) },
    Closed,
}

impl View for CatEvent {
    type V = CatEventV;

    open spec fn view(&self) -> CatEventV {
        match *self {
            CatEvent::Changed { now } => CatEventV::Changed { now },
            CatEvent::Loaded { content } => CatEventV::Loaded { content: content@ },
            CatEvent::Shown { now } => CatEventV::Shown { now },
            CatEvent::Idle { size } => CatEventV::Idle { size },
            CatEvent::Closed => CatEventV::Closed,
        }
    }
}

/// What to do next with a printed document: wait for an event, read its file, clear the screen and
/// print its content, do so and tell when it is shown, or stop.
#[derive(Debug, Clone, Copy, PartialEq, Eq, Structural)]
pub enum CatAction {
    Wait,
    Read,
    Draw,
    Show,
    Stop,
}

/// What an event does to a printed document, and what is to be done next.
pub open spec fn cat_step(session: CatSessionV, event: CatEventV) -> (CatSessionV, CatAction) {
    match event {
        CatEventV::Changed { now } => if is_due(session.last_reload, now, CAT_RELOAD_DELAY) {
            (session, CatAction::Read)
        } else {
            (session, CatAction::Wait)
        },
        CatEventV::Loaded { content } => (CatSessionV { content, ..session }, CatAction::Show),
        CatEventV::Shown { now } => (
            CatSessionV { last_reload: now, ..session },
            CatAction::Wait,
        ),
        CatEventV::Idle { size } => if size != session.last_size {
            (CatSessionV { last_size: size, ..session }, CatAction::Draw)
        } else {
            (session, CatAction::Wait)
        },
        CatEventV::Closed => (session, CatAction::Stop),
    }
}

impl CatSession {
    /// Takes an event and says what to do next.
    pub fn step(&mut self, event: CatEvent) -> (action: CatAction)
        ensures
            (final(self)@, action) == cat_step(old(self)@, event@),
    {
        match event {
            CatEvent::Changed { now } => {
                if reload_due(self.last_reload, now, CAT_RELOAD_DELAY) {
                    CatAction::Read
                } else {
                    CatAction::Wait
                }
            },
            CatEvent::Loaded { content } => {
                self.content = content;
                CatAction::Show
            },
            CatEvent::Shown { now } => {
                self.last_reload = now;
                CatAction::Wait
            },
            CatEvent::Idle { size } => {
                if size.0 != self.last_size.0 || size.1 != self.last_size.1 {
                    self.last_size = size;
                    CatAction::Draw
                } else {
                    CatAction::Wait
                }
            },
            CatEvent::Closed => CatAction::Stop,
        }
    }
}

/// An interactive document: its content and its blocks, whether the blocks are those of an earlier
/// content, and when it was last read. Times are in nanoseconds from some start.
pub struct TuiSession {
    pub content: String,
    pub blocks: Vec<Block>,
    pub needs_reparse: bool,
    pub last_reload: u128,
}

/// The mathematical value of a [`TuiSession`].
pub struct TuiSessionV {
    pub content: Seq<char>,
    pub blocks: Seq<BlockV>,
    pub needs_reparse: bool,
    pub last_reload: u128,
}

impl View for TuiSession {
    type V = TuiSessionV;

    open spec fn view(&self) -> TuiSessionV {
        TuiSessionV {
            content: self.content@,
            blocks: self.blocks.deep_view(),
            needs_reparse: self.needs_reparse,
            last_reload: self.last_reload,
        }
    }
}

impl TuiSessionV {
    /// The session with new content, to be parsed.
    pub open spec fn loaded(self, content: Seq<char>, now: u128) -> TuiSessionV {
        TuiSessionV { content, needs_reparse: true, last_reload: now, ..self }
    }

    /// The session with the blocks of its content.
    pub open spec fn refreshed(self) -> TuiSessionV {
        if self.needs_reparse {
            TuiSessionV { blocks: blocks_of(document(self.content)), needs_reparse: false, ..self }
        } else {
            self
        }
    }

    /// The session with the image of one of its blocks.
    pub open spec fn with_image(self, index: usize, image: ImageV) -> TuiSessionV {
        TuiSessionV { blocks: placed(self.blocks, index, image), ..self }
    }
}

impl TuiSession {
    /// A session that starts now with some content.
    pub fn new(content: String, now: u128) -> (session: TuiSession)
        ensures
            session@ == (TuiSessionV {
                content: content@,
                blocks: Seq::empty(),
                needs_reparse: true,
                last_reload: now,
            }),
    {
        let session = TuiSession {
            content,
            blocks: Vec::new(),
            needs_reparse: true,
            last_reload: now,
        };
        assert(session@.blocks =~= Seq::empty());
        session
    }

    /// Whether the file is to be read again after a change.
    pub fn is_reload_due(&self, now: u128) -> (r: bool)
        ensures
            r == is_due(self@.last_reload, now, TUI_RELOAD_DELAY),
    {
        reload_due(self.last_reload, now, TUI_RELOAD_DELAY)
    }

    /// Takes what was read from the file.
    pub fn load(&mut self, content: String, now: u128)
        ensures
            final(self)@ == old(self)@.loaded(content@, now),
    {
        self.content = content;
        self.needs_reparse = true;
        self.last_reload = now;
    }

    /// Parses content that was not parsed yet, and returns the diagrams that are then to be drawn.
    pub fn refresh(&mut self) -> (jobs: Option<Vec<(usize, String)>>)
        ensures
            final(self)@ == old(self)@.refreshed(),
            jobs.deep_view() == if old(self)@.needs_reparse {
                Some(jobs_of(final(self)@.blocks))
            } else {
                None
            },
    {
        if self.needs_reparse {
            self.blocks = render_markdown_fast(self.content.as_str());
            self.needs_reparse = false;
            Some(pending_jobs(self.blocks.as_slice()))
        } else {
            None
        }
    }

    /// Takes the image of the block with the given index.
    pub fn receive(&mut self, index: usize, image: RenderedImage)
        ensures
            final(self)@ == old(self)@.with_image(index, image.deep_view()),
    {
        place_image(&mut self.blocks, index, image);
    }
}

/// A printed document is shown exactly when it was read, and drawn again exactly when the size of
/// the terminal is another one. Its content changes only to what was read, the size only to that of
/// the terminal, and nothing else is drawn anew.
pub proof fn law_cat_draws_what_changed(session: CatSessionV, event: CatEventV)
    ensures
        ({
            let (after, action) = cat_step(session, event);
            &&& action == CatAction::Show <==> event is Loaded
            &&& action == CatAction::Show ==> event == (CatEventV::Loaded {
                content: after.content,
            })
            &&& action == CatAction::Draw <==> (event matches CatEventV::Idle { size } && size
                != session.last_size)
            &&& action == CatAction::Draw ==> event == (CatEventV::Idle { size: after.last_size })
            &&& action != CatAction::Show ==> after.content == session.content
            &&& action != CatAction::Draw ==> after.last_size == session.last_size
        }),
{
}

/// A terminal whose size stays the same is drawn once.
pub proof fn law_cat_draws_a_size_once(session: CatSessionV, size: (u16, u16))
    ensures
        ({
            let event = CatEventV::Idle { size };
            let after = cat_step(session, event).0;
            cat_step(after, event) == (after, CatAction::Wait)
        }),
{
}

/// After what was read is shown, a printed document is not read again before the delay is over,
/// and is read at every change from then on.
pub proof fn law_cat_reload_delay(session: CatSessionV, shown: u128, changed: u128)
    ensures
        ({
            let after = cat_step(session, CatEventV::Shown { now: shown }).0;
            let action = cat_step(after, CatEventV::Changed { now: changed }).1;
            &&& changed - shown <= CAT_RELOAD_DELAY ==> action == CatAction::Wait
            &&& changed - shown > CAT_RELOAD_DELAY ==> action == CatAction::Read
        }),
{
}

/// Blocks without the images of their diagrams.
pub open spec fn without_images(blocks: Seq<BlockV>) -> Seq<BlockV> {
    blocks.map_values(
        |block: BlockV|
            match block {
                BlockV::Mermaid { source, image: _ } => BlockV::Mermaid { source, image: None },
                _ => block,
            },
    )
}

impl TuiSessionV {
    /// Whether the blocks are those of the content, but for the images, unless the content is
    /// still to be parsed.
    pub open spec fn is_current(self) -> bool {
        self.needs_reparse || without_images(self.blocks) == blocks_of(document(self.content))
    }
}

/// What is shown are the blocks of the content: that holds at the start and after everything that
/// happens to a session, and after a refresh nothing is left to be parsed.
pub proof fn law_tui_session_stays_current(
    session: TuiSessionV,
    content: Seq<char>,
    now: u128,
    index: usize,
    image: ImageV,
)
    requires
        session.is_current(),
    ensures
        session.loaded(content, now).is_current(),
        session.refreshed().is_current(),
        !session.refreshed().needs_reparse,
        session.refreshed().refreshed() == session.refreshed(),
        session.with_image(index, image).is_current(),
{
    let root = document(session.content);
    law_blocks_are_fresh(root);
    assert(without_images(blocks_of(root)) =~= blocks_of(root)) by {
        assert forall|i: int| 0 <= i < blocks_of(root).len() implies without_images(
            blocks_of(root),
        )[i] == blocks_of(root)[i] by {
            assert(is_fresh(blocks_of(root)[i]));
        }
    }
    assert(without_images(session.with_image(index, image).blocks) =~= without_images(
        session.blocks,
    ));
}

/// Content that was read is shown as it is, whatever was shown before.
pub proof fn law_tui_shows_what_was_read(session: TuiSessionV, content: Seq<char>, now: u128)
    ensures
        session.loaded(content, now).refreshed().blocks == blocks_of(document(content)),
{
}

/// Every diagram of content that was read becomes a job.
pub proof fn law_tui_draws_every_diagram(session: TuiSessionV, content: Seq<char>, now: u128)
    requires
        blocks_of(document(content)).len() <= usize::MAX,
    ensures
        ({
            let blocks = session.loaded(content, now).refreshed().blocks;
            forall|i: int|
                0 <= i < blocks.len() && (#[trigger] blocks[i]) is Mermaid ==> exists|k: int|
                    0 <= k < jobs_of(blocks).len() && (#[trigger] jobs_of(blocks)[k]).0 == i
        }),
{
    let blocks = session.loaded(content, now).refreshed().blocks;
    law_blocks_are_fresh(document(content));
    law_jobs_are_the_pending_diagrams(blocks);
    assert forall|i: int| 0 <= i < blocks.len() && (
    #[trigger] blocks[i]) is Mermaid implies exists|k: int|
        0 <= k < jobs_of(blocks).len() && (#[trigger] jobs_of(blocks)[k]).0 == i by {
        assert(is_fresh(blocks[i]));
        assert(blocks[i].is_pending());
    }
}

/// A printed document is read exactly when its file changed more than a fifth of a second after
/// what was last read was on the screen, and it is over exactly when there will be no more changes.
/// Only what is on the screen sets when that was.
pub proof fn law_cat_reads_and_stops(session: CatSessionV, event: CatEventV, now: u128)
    ensures
        ({
            let (after, action) = cat_step(session, event);
            &&& action == CatAction::Read <==> (event matches CatEventV::Changed { now } && now
                - session.last_reload > 200_000_000)
            &&& action == CatAction::Stop <==> event is Closed
            &&& event == (CatEventV::Shown { now }) ==> after.last_reload == now
            &&& !(event is Shown) ==> after.last_reload == session.last_reload
            &&& event is Changed || event is Closed ==> after == session
        }),
{
}

/// An interactive document is read again at a change that comes more than a tenth of a second after
/// it was read, and not before; to read it sets when that was, and to parse it or to take an image
/// does not.
pub proof fn law_tui_reload_delay(
    session: TuiSessionV,
    content: Seq<char>,
    read: u128,
    changed: u128,
    index: usize,
    image: ImageV,
)
    ensures
        is_due(session.loaded(content, read).last_reload, changed, TUI_RELOAD_DELAY) <==> changed
            - read > 100_000_000,
        session.loaded(content, read).content == content,
        session.refreshed().last_reload == session.last_reload,
        session.refreshed().content == session.content,
        session.with_image(index, image).last_reload == session.last_reload,
        session.with_image(index, image).content == session.content,
        session.with_image(index, image).needs_reparse == session.needs_reparse,
{
}

/// A terminal has the Kitty graphics protocol by its type or its program, whatever stands around
/// the name there.
pub proof fn law_kitty_terminals_are_known(before: Seq<char>, after: Seq<char>, other: Seq<char>)
    ensures
        is_kitty_type(before + "kitty"@ + after),
        is_kitty_program(before + "wezterm"@ + after),
        is_kitty_program(before + "ghostty"@ + after),
        is_kitty_type(other) ==> exists|a: Seq<char>, b: Seq<char>|
            other == #[trigger] (a + "kitty"@ + b),
        is_kitty_program(other) ==> exists|a: Seq<char>, b: Seq<char>|
            other == #[trigger] (a + "wezterm"@ + b) || other == #[trigger] (a + "ghostty"@ + b),
{
    law_contains_what_stands_in_it(before, "kitty"@, after);
    law_contains_what_stands_in_it(before, "wezterm"@, after);
    law_contains_what_stands_in_it(before, "ghostty"@, after);
    if is_kitty_program(other) {
        if contains_text(other, "wezterm"@) {
            let (a, b) = choose|a: Seq<char>, b: Seq<char>| other == #[trigger] (a + "wezterm"@ + b);
            assert(other == a + "wezterm"@ + b);
            assert((a + "ghostty"@ + b).len() >= 0);
        } else {
            let (a, b) = choose|a: Seq<char>, b: Seq<char>| other == #[trigger] (a + "ghostty"@ + b);
            assert(other == a + "ghostty"@ + b);
            assert((a + "wezterm"@ + b).len() >= 0);
        }
    }
}

/// What clears the screen, what size is taken for a terminal that tells none, and how often a
/// printed document looks at it.
pub proof fn law_screen()
    ensures
        CLEAR_SCREEN@ == seq!['\u{1b}', '[', '2', 'J', '\u{1b}', '[', 'H'],
        DEFAULT_SIZE == (80u16, 24u16),
        CAT_POLL_MILLIS * 4 == 1000,
{
    reveal_strlit("\x1b[2J\x1b[H");
    assert(CLEAR_SCREEN@ =~= seq!['\u{1b}', '[', '2', 'J', '\u{1b}', '[', 'H']);
}

} // verus!
