//! The study session: one in-memory collection plus the scheduler state and
//! the display toggles, driven by commands. Each command is applied as one
//! atomic step; anything the surrounding program must do (persist, copy to
//! the clipboard, fetch help, read an upload, run a timer) comes back as an
//! effect, so the core never blocks and never touches the outside world.

use vstd::prelude::*;
use vstd::string::StringExecFns;

use crate::card::{Card, Face, ModeFlags, MAX_CARDS};
use crate::random::RandomSource;
use crate::scheduler::{
    go_back, on_delete, on_replace_all, record_outcome, select_next, spec_record,
    spec_remap_current, SchedulerState,
};

verus! {

/// How many table rows a listing shows before paging.
pub const ROW_DISPLAY_INITIAL: usize = 50;

/// The display modes of the surrounding program that change what commands
/// mean (adding versus editing a card, which listing is paged).
#[derive(Clone, Copy, PartialEq, Eq, Debug, Structural)]
pub enum Mode {
    Add,
    AllCards,
    Edit,
    Help,
    Stats,
    Study,
}

/// One user-level command against the session.
pub enum Command {
    /// Commit the entry texts: replace the current card's faces in edit
    /// mode, append a new card otherwise.
    AddCard,
    AddMode,
    AllCardsMode,
    ChooseMissedToggle,
    ChooseNeglectedToggle,
    /// Export the collection for the clipboard.
    CopyCards,
    /// First request arms the deletion; the second with the same position
    /// performs it.
    DeleteCard(usize),
    DisplayMoreRows,
    /// Start editing the given position, or the current card.
    EditCard(Option<usize>),
    Flip,
    HelpMode,
    Hit,
    Miss,
    Next,
    Prev,
    ReverseModeToggle,
    SetClipboardError(String),
    SetHelp(String),
    SetUploadError(Option<String>),
    StatsMode,
    /// Replace the collection with uploaded text (an import).
    StoreNewCards(String),
    StudyMode,
    UpdateNewBackText(String),
    UpdateNewFrontText(String),
    /// An upload arrived with this many files; exactly one is accepted.
    UploadCards(usize),
}

/// What the surrounding program must do after a step.
pub enum Effect {
    /// Persist the collection.
    StoreCards,
    /// Put this text on the clipboard.
    CopyText(String),
    /// Fetch the help page.
    FetchHelp,
    /// Re-render shortly (row paging).
    ScheduleRender,
    /// Clear the upload error after a delay.
    ScheduleUploadErrorClear,
    /// Read the uploaded file and hand its text back as `StoreNewCards`.
    ReadUploadedFile,
}

/// The whole session state.
pub struct Session {
    pub cards: Vec<Card>,
    pub flags: ModeFlags,
    pub scheduler: SchedulerState,
    pub mode: Mode,
    pub visible_face: Face,
    pub new_front_text: String,
    pub new_back_text: String,
    pub deletion_target: Option<usize>,
    pub n_rows_displayed: usize,
    pub need_key_focus: bool,
    pub help_html: Option<String>,
    pub upload_error: Option<String>,
    pub clipboard_error: Option<String>,
}

impl Session {
    /// Validity: the collection is within the machine bound and every
    /// position the scheduler remembers still addresses a card.
    pub open spec fn wf(self) -> bool {
        &&& self.cards@.len() <= MAX_CARDS
        &&& (self.scheduler.current matches Some(c) ==> c < self.cards@.len())
        &&& forall|k: int|
            0 <= k < self.scheduler.history@.len() ==> (
            #[trigger] self.scheduler.history@[k]) < self.cards@.len()
    }

    /// A fresh session over the given collection: study mode, forward
    /// direction, missed cards preferred, nothing shown yet.
    pub fn new(cards: Vec<Card>) -> (s: Session)
        requires
            cards@.len() <= MAX_CARDS,
        ensures
            s.wf(),
            s.cards@ == cards@,
            s.flags == (ModeFlags { reverse_mode: false, prefer_missed: true, prefer_neglected: false }),
            s.scheduler.current is None,
            s.scheduler.history@.len() == 0,
            s.mode == Mode::Study,
            s.visible_face == Face::Prompt,
            s.upload_error is None,
    {
        Session {
            cards,
            flags: ModeFlags::default_flags(),
            scheduler: SchedulerState::new(),
            mode: Mode::Study,
            visible_face: Face::Prompt,
            new_front_text: String::new(),
            new_back_text: String::new(),
            deletion_target: None,
            n_rows_displayed: 0,
            need_key_focus: true,
            help_html: None,
            upload_error: None,
            clipboard_error: None,
        }
    }

    /// Switches the display mode, resetting paging; entering study mode
    /// asks for key focus.
    pub fn change_mode(&mut self, new_mode: Mode)
        ensures
            final(self).mode == new_mode,
            final(self).n_rows_displayed == ROW_DISPLAY_INITIAL,
            final(self).need_key_focus == (old(self).need_key_focus || (new_mode == Mode::Study
                && old(self).mode != Mode::Study)),
            final(self).cards == old(self).cards,
            final(self).flags == old(self).flags,
            final(self).scheduler == old(self).scheduler,
            final(self).visible_face == old(self).visible_face,
            final(self).new_front_text == old(self).new_front_text,
            final(self).new_back_text == old(self).new_back_text,
            final(self).deletion_target == old(self).deletion_target,
            final(self).help_html == old(self).help_html,
            final(self).upload_error == old(self).upload_error,
            final(self).clipboard_error == old(self).clipboard_error,
    {
        if new_mode == Mode::Study && self.mode != Mode::Study {
            self.need_key_focus = true;
        }
        self.n_rows_displayed = ROW_DISPLAY_INITIAL;
        self.mode = new_mode;
    }

    /// Picks a current card if study mode has none — the recovery step at
    /// the end of every update, and the very first selection.
    pub fn ensure_current<R: RandomSource>(&mut self, source: &mut R) -> (redrawn: bool)
        requires
            old(self).wf(),
        ensures
            final(self).wf(),
            final(self).cards == old(self).cards,
            final(self).flags == old(self).flags,
            final(self).mode == old(self).mode,
            (old(self).mode == Mode::Study && old(self).scheduler.current is None && old(self).cards@.len() > 0)
                ==> final(self).scheduler.current is Some,
            !(old(self).mode == Mode::Study && old(self).scheduler.current is None)
                ==> final(self).scheduler == old(self).scheduler,
            old(self).scheduler.current is Some ==> final(self).scheduler == old(self).scheduler,
            final(self).scheduler.history@ == old(self).scheduler.history@,
            final(self).visible_face == old(self).visible_face,
            final(self).new_front_text == old(self).new_front_text,
            final(self).new_back_text == old(self).new_back_text,
            final(self).deletion_target == old(self).deletion_target,
            final(self).n_rows_displayed == old(self).n_rows_displayed,
            final(self).need_key_focus == old(self).need_key_focus,
            final(self).help_html == old(self).help_html,
            final(self).upload_error == old(self).upload_error,
            final(self).clipboard_error == old(self).clipboard_error,
    {
        if self.mode == Mode::Study && self.scheduler.current.is_none() {
            let r = select_next(&self.cards, &mut self.scheduler, &self.flags, source);
            r.is_some()
        } else {
            false
        }
    }
}

/// The scheduler did not move: the history is as it was and a shown card
/// stays shown (a fresh selection happens only when study mode had no
/// current card).
pub open spec fn scheduler_kept(pre: Session, post: Session) -> bool {
    &&& post.cards == pre.cards
    &&& post.scheduler.history@ == pre.scheduler.history@
    &&& (pre.scheduler.current is Some ==> post.scheduler.current == pre.scheduler.current)
}

impl Session {
    /// Applies one command, returning the effects the surrounding program
    /// must perform and whether a redraw is needed. The step is total: no
    /// command fails, whatever the state. When study mode is left without a
    /// current card, a fresh selection is drawn at the end of the step — a
    /// failed import excepted, which changes nothing at all.
    /// Commits the entry texts: replaces the current card's faces in edit
    /// mode, appends a new card otherwise; the texts are cleared either way.
    fn do_add_card(&mut self)
        requires
            old(self).wf(),
        ensures
            final(self).wf(),
            final(self).new_front_text@ == Seq::<char>::empty(),
            final(self).new_back_text@ == Seq::<char>::empty(),
            final(self).scheduler == old(self).scheduler,
            final(self).flags == old(self).flags,
            final(self).upload_error == old(self).upload_error,
            final(self).help_html == old(self).help_html,
            final(self).visible_face == old(self).visible_face,
            old(self).mode == Mode::Edit ==> final(self).mode == Mode::Study && (match old(self).scheduler.current {
                Some(i) => final(self).cards@.len() == old(self).cards@.len() && final(self).cards@[i as int]@.prompt == old(self).new_front_text@ && final(self).cards@[i as int]@.response == old(self).new_back_text@,
                None => final(self).cards == old(self).cards,
            }),
            old(self).mode != Mode::Edit ==> final(self).mode == old(self).mode && (if old(self).cards@.len() < MAX_CARDS {
                final(self).cards@.len() == old(self).cards@.len() + 1 && final(self).cards@[old(self).cards@.len() as int]@.prompt == old(self).new_front_text@ && final(self).cards@[old(self).cards@.len() as int]@.response == old(self).new_back_text@
                    && final(self).cards@.subrange(0, old(self).cards@.len() as int) == old(self).cards@
            } else {
                final(self).cards == old(self).cards
            }),
    {
        if self.mode == Mode::Edit {
            if let Some(i) = self.scheduler.current {
                self.cards[i].prompt = self.new_front_text.clone();
                self.cards[i].response = self.new_back_text.clone();
            }
            self.change_mode(Mode::Study);
        } else {
            if self.cards.len() < MAX_CARDS {
                let card = Card::new(self.new_front_text.as_str(), self.new_back_text.as_str());
                self.cards.push(card);
                proof {
                    assert(self.cards@.subrange(0, old(self).cards@.len() as int) =~= old(
                        self,
                    ).cards@);
                }
            }
        }
        self.new_back_text = String::new();
        self.new_front_text = String::new();
    }

    /// Performs an armed deletion at `pos`, or arms it.
    fn do_delete(&mut self, pos: usize) -> (stored: bool)
        requires
            old(self).wf(),
        ensures
            final(self).wf(),
            final(self).flags == old(self).flags,
            final(self).mode == old(self).mode,
            old(self).deletion_target == Some(pos) && pos < old(self).cards@.len() ==> {
                &&& stored
                &&& final(self).cards@ == old(self).cards@.remove(pos as int)
                &&& final(self).scheduler.history@.len() == 0
                &&& final(self).scheduler.current == spec_remap_current(
                    old(self).scheduler.current,
                    pos,
                )
                &&& final(self).deletion_target is None
            },
            !(old(self).deletion_target == Some(pos) && pos < old(self).cards@.len()) ==> {
                &&& !stored
                &&& final(self).cards@ == old(self).cards@
                &&& final(self).scheduler.current == old(self).scheduler.current
                &&& final(self).scheduler.history@ == old(self).scheduler.history@
                &&& (old(self).deletion_target != Some(pos) ==> final(self).deletion_target
                    == Some(pos))
            },
    {
        let armed = match self.deletion_target {
            Some(t) => t == pos,
            None => false,
        };
        if armed {
            let stored: bool;
            match on_delete(&mut self.cards, &mut self.scheduler, pos) {
                Ok(()) => {
                    stored = true;
                },
                Err(_) => {
                    stored = false;
                },
            }
            self.deletion_target = None;
            proof {
                if pos < old(self).cards@.len() {
                    assert forall|k: int|
                        0 <= k < final(self).scheduler.history@.len() implies (#[trigger] final(self).scheduler.history@[k]) < final(self).cards@.len() by {}
                }
            }
            stored
        } else {
            self.deletion_target = Some(pos);
            false
        }
    }

    /// Starts editing the addressed card, if it exists.
    fn do_edit(&mut self, which: Option<usize>) -> (redraw: bool)
        requires
            old(self).wf(),
        ensures
            final(self).wf(),
            final(self).cards == old(self).cards,
            final(self).flags == old(self).flags,
            final(self).scheduler.history@ == old(self).scheduler.history@,
            match (match which {
                None => old(self).scheduler.current,
                Some(i) => Some(i),
            }) {
                Some(i) => if i < old(self).cards@.len() {
                    &&& final(self).scheduler.current == Some(i)
                    &&& final(self).mode == Mode::Edit
                    &&& final(self).new_front_text@ == old(self).cards@[i as int].prompt@
                    &&& final(self).new_back_text@ == old(self).cards@[i as int].response@
                    &&& redraw
                } else {
                    final(self).scheduler.current == old(self).scheduler.current && !redraw
                },
                None => final(self).scheduler.current == old(self).scheduler.current && !redraw,
            },
    {
        let idx = match which {
            None => self.scheduler.current,
            Some(i) => Some(i),
        };
        match idx {
            Some(i) => {
                if i < self.cards.len() {
                    self.scheduler.current = Some(i);
                    self.new_front_text = self.cards[i].prompt.clone();
                    self.new_back_text = self.cards[i].response.clone();
                    self.change_mode(Mode::Edit);
                    true
                } else {
                    false
                }
            },
            None => false,
        }
    }

    /// Records a hit or a miss on the current card, exactly one count by
    /// one; without a current card nothing happens.
    fn do_record(&mut self, is_hit: bool) -> (recorded: bool)
        requires
            old(self).wf(),
        ensures
            final(self).wf(),
            final(self).flags == old(self).flags,
            final(self).mode == old(self).mode,
            final(self).scheduler == old(self).scheduler,
            match old(self).scheduler.current {
                Some(i) => recorded && final(self).cards@ == old(self).cards@.update(
                    i as int,
                    spec_record(old(self).cards@[i as int], is_hit, old(self).flags.reverse_mode),
                ) && final(self).visible_face is Prompt,
                None => !recorded && final(self).cards == old(self).cards && final(self).visible_face == old(self).visible_face,
            },
    {
        match self.scheduler.current {
            Some(i) => {
                let _ = record_outcome(&mut self.cards, i, is_hit, self.flags.reverse_mode);
                self.visible_face = Face::Prompt;
                true
            },
            None => false,
        }
    }

    /// Replaces the collection from uploaded text. A malformed text — or
    /// one beyond the machine bound — changes neither the collection nor
    /// the scheduler and reports the upload error; a well-formed one
    /// replaces everything and a fresh card is selected.
    fn do_import<R: RandomSource>(&mut self, text: &str, source: &mut R) -> (imported: bool)
        requires
            old(self).wf(),
        ensures
            final(self).wf(),
            final(self).flags == old(self).flags,
            final(self).mode == old(self).mode,
            match crate::json::spec_parse_cards(text@) {
                Some(views) => if views.len() <= MAX_CARDS {
                    &&& imported
                    &&& crate::json::views_of(final(self).cards@) == views
                    &&& final(self).scheduler.history@.len() == 0
                    &&& (views.len() > 0 ==> (final(self).scheduler.current matches Some(i) && i
                        < views.len()))
                    &&& (views.len() == 0 ==> final(self).scheduler.current is None)
                    &&& final(self).visible_face is Prompt
                } else {
                    &&& !imported
                    &&& final(self).cards == old(self).cards
                    &&& final(self).scheduler == old(self).scheduler
                    &&& final(self).upload_error is Some
                },
                None => {
                    &&& !imported
                    &&& final(self).cards == old(self).cards
                    &&& final(self).scheduler == old(self).scheduler
                    &&& final(self).visible_face == old(self).visible_face
                    &&& final(self).upload_error is Some
                },
            },
    {
        match crate::json::parse_cards(text) {
            Err(e) => {
                self.upload_error = Some(e.message);
                false
            },
            Ok(new_cards) => {
                if new_cards.len() <= MAX_CARDS {
                    on_replace_all(&mut self.cards, &mut self.scheduler, new_cards);
                    let _ = select_next(&self.cards, &mut self.scheduler, &self.flags, source);
                    self.visible_face = Face::Prompt;
                    true
                } else {
                    self.upload_error = Some(String::from_str("upload rejected: too many cards"));
                    false
                }
            },
        }
    }

    /// Applies one command, returning the effects the surrounding program
    /// must perform and whether a redraw is needed. The step is total: no
    /// command fails, whatever the state. When study mode is left without a
    /// current card, a fresh selection is drawn at the end of the step — a
    /// failed or rejected import excepted, which changes nothing at all.
    #[verifier::rlimit(100)]
    pub fn update<R: RandomSource>(&mut self, cmd: Command, source: &mut R) -> (r: (
        Vec<Effect>,
        bool,
    ))
        requires
            old(self).wf(),
        ensures
            final(self).wf(),

            cmd matches Command::AddMode ==> final(self).mode == Mode::Add && scheduler_kept(
                *old(self),
                *final(self),
            ),
            cmd matches Command::AllCardsMode ==> final(self).mode == Mode::AllCards
                && scheduler_kept(*old(self), *final(self)),
            cmd matches Command::StatsMode ==> final(self).mode == Mode::Stats && scheduler_kept(
                *old(self),
                *final(self),
            ),
            cmd matches Command::StudyMode ==> final(self).mode == Mode::Study && scheduler_kept(
                *old(self),
                *final(self),
            ),
            cmd matches Command::HelpMode ==> final(self).mode == Mode::Help && scheduler_kept(
                *old(self),
                *final(self),
            ) && (old(self).help_html is None ==> r.0@ == seq![Effect::FetchHelp]),
            cmd matches Command::ChooseMissedToggle ==> final(self).flags.prefer_missed != old(self).flags.prefer_missed && final(self).flags.prefer_neglected == old(self).flags.prefer_neglected && final(self).flags.reverse_mode == old(self).flags.reverse_mode && scheduler_kept(*old(self), *final(self)),
            cmd matches Command::ChooseNeglectedToggle ==> final(self).flags.prefer_neglected
                != old(self).flags.prefer_neglected && final(self).flags.prefer_missed == old(self).flags.prefer_missed && final(self).flags.reverse_mode == old(self).flags.reverse_mode && scheduler_kept(*old(self), *final(self)),
            cmd matches Command::ReverseModeToggle ==> final(self).flags.reverse_mode != old(self).flags.reverse_mode && final(self).flags.prefer_missed == old(self).flags.prefer_missed && final(self).flags.prefer_neglected == old(self).flags.prefer_neglected && scheduler_kept(*old(self), *final(self)),
            cmd matches Command::Flip ==> (final(self).visible_face is Prompt <==> old(self).visible_face is Response) && scheduler_kept(*old(self), *final(self)),
            cmd matches Command::CopyCards ==> scheduler_kept(*old(self), *final(self))
                && r.0@.len() == 1 && (r.0@[0] matches Effect::CopyText(t) && t@
                == crate::render::spec_render_cards(crate::json::views_of(old(self).cards@), true)),
            cmd matches Command::Hit ==> (match old(self).scheduler.current {
                Some(i) => final(self).cards@ == old(self).cards@.update(
                    i as int,
                    spec_record(old(self).cards@[i as int], true, old(self).flags.reverse_mode),
                ) && final(self).scheduler == old(self).scheduler && final(self).visible_face is Prompt && r.0@ == seq![Effect::StoreCards],
                None => final(self).cards == old(self).cards,
            }),
            cmd matches Command::Miss ==> (match old(self).scheduler.current {
                Some(i) => final(self).cards@ == old(self).cards@.update(
                    i as int,
                    spec_record(old(self).cards@[i as int], false, old(self).flags.reverse_mode),
                ) && final(self).scheduler == old(self).scheduler && final(self).visible_face is Prompt && r.0@ == seq![Effect::StoreCards],
                None => final(self).cards == old(self).cards,
            }),
            cmd matches Command::Next ==> final(self).cards == old(self).cards && (old(self).cards@.len() > 0 ==> (final(self).scheduler.current matches Some(i) && i < old(self).cards@.len()) && final(self).scheduler.history@
                == crate::scheduler::spec_push_current(
                old(self).scheduler.current,
                old(self).scheduler.history@,
                old(self).cards@.len() as nat,
            ) && final(self).visible_face is Prompt),
            cmd matches Command::Prev ==> final(self).cards == old(self).cards && (old(self).scheduler.history@.len() > 0 ==> final(self).scheduler.current == Some(
                old(self).scheduler.history@.last(),
            ) && final(self).scheduler.history@ == old(self).scheduler.history@.drop_last()
                && final(self).visible_face is Prompt),
            cmd matches Command::DeleteCard(pos) ==> (if old(self).deletion_target == Some(pos)
                && pos < old(self).cards@.len() {
                &&& final(self).cards@ == old(self).cards@.remove(pos as int)
                &&& final(self).scheduler.history@.len() == 0
                &&& final(self).deletion_target is None
                &&& {
                    let remapped = spec_remap_current(old(self).scheduler.current, pos);
                    final(self).scheduler.current == remapped || (remapped is None && old(self).mode == Mode::Study && final(self).scheduler.current is Some)
                }
                &&& r.0@ == seq![Effect::StoreCards]
            } else {
                final(self).cards@ == old(self).cards@ && (old(self).deletion_target != Some(pos)
                    ==> final(self).deletion_target == Some(pos))
            }),
            cmd matches Command::StoreNewCards(text) ==> (match crate::json::spec_parse_cards(
                text@,
            ) {
                Some(views) => if views.len() <= MAX_CARDS {
                    &&& crate::json::views_of(final(self).cards@) == views
                    &&& final(self).scheduler.history@.len() == 0
                    &&& (views.len() > 0 ==> (final(self).scheduler.current matches Some(i) && i
                        < views.len()))
                    &&& final(self).visible_face is Prompt
                    &&& r.0@ == seq![Effect::StoreCards]
                } else {
                    final(self).cards == old(self).cards && scheduler_kept(*old(self), *final(self))
                        && final(self).upload_error is Some
                },
                None => final(self).cards == old(self).cards && final(self).scheduler == old(self).scheduler && final(self).visible_face == old(self).visible_face && final(self).mode == old(self).mode && final(self).upload_error is Some && r.0@
                    == seq![Effect::ScheduleUploadErrorClear],
            }),
            cmd matches Command::EditCard(which) ==> final(self).cards == old(self).cards && (
            match (match which {
                None => old(self).scheduler.current,
                Some(i) => Some(i),
            }) {
                Some(i) => if i < old(self).cards@.len() {
                    &&& final(self).scheduler.current == Some(i)
                    &&& final(self).mode == Mode::Edit
                    &&& final(self).new_front_text@ == old(self).cards@[i as int].prompt@
                    &&& final(self).new_back_text@ == old(self).cards@[i as int].response@
                } else {
                    old(self).scheduler.current is Some ==> final(self).scheduler.current == old(
                        self,
                    ).scheduler.current
                },
                None => true,
            }),
            cmd matches Command::AddCard ==> final(self).new_front_text@ == Seq::<char>::empty()
                && final(self).new_back_text@ == Seq::<char>::empty() && r.0@
                == seq![Effect::StoreCards] && (if old(self).mode == Mode::Edit {
                final(self).mode == Mode::Study && (match old(self).scheduler.current {
                    Some(i) => final(self).cards@.len() == old(self).cards@.len() && final(self).cards@[i as int]@.prompt == old(self).new_front_text@ && final(self).cards@[i as int]@.response == old(self).new_back_text@,
                    None => final(self).cards == old(self).cards,
                })
            } else {
                old(self).cards@.len() < MAX_CARDS ==> final(self).cards@.len() == old(self).cards@.len() + 1 && final(self).cards@[old(self).cards@.len() as int]@.prompt
                    == old(self).new_front_text@ && final(self).cards@[old(self).cards@.len() as int]@.response == old(self).new_back_text@ && final(self).cards@.subrange(0, old(self).cards@.len() as int) == old(self).cards@
            }),
            cmd matches Command::SetHelp(h) ==> (final(self).help_html matches Some(s) && s@ == h@)
                && scheduler_kept(*old(self), *final(self)),
            cmd matches Command::SetClipboardError(m) ==> (final(self).clipboard_error matches Some(
                s,
            ) && s@ == m@) && scheduler_kept(*old(self), *final(self)),
            cmd matches Command::SetUploadError(e) ==> final(self).upload_error == e && r.0@
                == seq![Effect::ScheduleUploadErrorClear] && scheduler_kept(*old(self), *final(self)),
            cmd matches Command::UpdateNewFrontText(s) ==> final(self).new_front_text@ == s@
                && scheduler_kept(*old(self), *final(self)),
            cmd matches Command::UpdateNewBackText(s) ==> final(self).new_back_text@ == s@
                && scheduler_kept(*old(self), *final(self)),
            cmd matches Command::UploadCards(n) ==> scheduler_kept(*old(self), *final(self)) && (
            if n == 1 {
                r.0@ == seq![Effect::ReadUploadedFile]
            } else {
                final(self).upload_error is Some && r.0@ == seq![Effect::ScheduleUploadErrorClear]
            }),
            cmd matches Command::DisplayMoreRows ==> scheduler_kept(*old(self), *final(self)),
    {
        let mut effects: Vec<Effect> = Vec::new();
        let render: bool;
        match cmd {
            Command::AddCard => {
                self.do_add_card();
                effects.push(Effect::StoreCards);
                proof {
                    assert(effects@ =~= seq![Effect::StoreCards]);
                }
                render = true;
            },
            Command::AddMode => {
                self.change_mode(Mode::Add);
                render = true;
            },
            Command::AllCardsMode => {
                self.change_mode(Mode::AllCards);
                render = true;
            },
            Command::ChooseMissedToggle => {
                self.flags.prefer_missed = !self.flags.prefer_missed;
                render = true;
            },
            Command::ChooseNeglectedToggle => {
                self.flags.prefer_neglected = !self.flags.prefer_neglected;
                render = true;
            },
            Command::CopyCards => {
                let text = crate::render::cards_to_json_pretty(&self.cards);
                effects.push(Effect::CopyText(text));
                render = true;
            },
            Command::DeleteCard(pos) => {
                let stored = self.do_delete(pos);
                if stored {
                    effects.push(Effect::StoreCards);
                    proof {
                        assert(effects@ =~= seq![Effect::StoreCards]);
                    }
                }
                render = true;
            },
            Command::DisplayMoreRows => {
                if self.n_rows_displayed < self.cards.len() {
                    self.n_rows_displayed = self.n_rows_displayed * 2;
                    effects.push(Effect::ScheduleRender);
                }
                render = false;
            },
            Command::EditCard(which) => {
                render = self.do_edit(which);
            },
            Command::Flip => {
                self.visible_face = Face::other_side(&self.visible_face);
                render = true;
            },
            Command::HelpMode => {
                self.change_mode(Mode::Help);
                if self.help_html.is_none() {
                    effects.push(Effect::FetchHelp);
                    proof {
                        assert(effects@ =~= seq![Effect::FetchHelp]);
                    }
                }
                render = true;
            },
            Command::Hit => {
                let recorded = self.do_record(true);
                if recorded {
                    effects.push(Effect::StoreCards);
                    proof {
                        assert(effects@ =~= seq![Effect::StoreCards]);
                    }
                }
                render = recorded;
            },
            Command::Miss => {
                let recorded = self.do_record(false);
                if recorded {
                    effects.push(Effect::StoreCards);
                    proof {
                        assert(effects@ =~= seq![Effect::StoreCards]);
                    }
                }
                render = recorded;
            },
            Command::Next => {
                let _ = select_next(&self.cards, &mut self.scheduler, &self.flags, source);
                self.visible_face = Face::Prompt;
                render = true;
            },
            Command::Prev => {
                match go_back(&mut self.scheduler) {
                    Some(_) => {
                        self.visible_face = Face::Prompt;
                        render = true;
                    },
                    None => {
                        render = false;
                    },
                }
            },
            Command::ReverseModeToggle => {
                self.flags.reverse_mode = !self.flags.reverse_mode;
                render = true;
            },
            Command::SetClipboardError(m) => {
                self.clipboard_error = Some(m);
                render = true;
            },
            Command::SetHelp(h) => {
                self.help_html = Some(h);
                render = true;
            },
            Command::SetUploadError(e) => {
                self.upload_error = e;
                effects.push(Effect::ScheduleUploadErrorClear);
                proof {
                    assert(effects@ =~= seq![Effect::ScheduleUploadErrorClear]);
                }
                render = true;
            },
            Command::StatsMode => {
                self.change_mode(Mode::Stats);
                render = true;
            },
            Command::StoreNewCards(text) => {
                let imported = self.do_import(text.as_str(), source);
                if imported {
                    effects.push(Effect::StoreCards);
                    proof {
                        assert(effects@ =~= seq![Effect::StoreCards]);
                    }
                    render = true;
                } else {
                    effects.push(Effect::ScheduleUploadErrorClear);
                    proof {
                        assert(effects@ =~= seq![Effect::ScheduleUploadErrorClear]);
                    }
                    return (effects, true);
                }
            },
            Command::StudyMode => {
                self.change_mode(Mode::Study);
                render = true;
            },
            Command::UpdateNewBackText(s) => {
                self.new_back_text = s;
                render = true;
            },
            Command::UpdateNewFrontText(s) => {
                self.new_front_text = s;
                render = true;
            },
            Command::UploadCards(n_files) => {
                if n_files != 1 {
                    self.upload_error = Some(String::from_str("Multiple file upload unsupported"));
                    effects.push(Effect::ScheduleUploadErrorClear);
                    proof {
                        assert(effects@ =~= seq![Effect::ScheduleUploadErrorClear]);
                    }
                    render = false;
                } else {
                    effects.push(Effect::ReadUploadedFile);
                    proof {
                        assert(effects@ =~= seq![Effect::ReadUploadedFile]);
                    }
                    render = true;
                }
            },
        }
        let redrawn = self.ensure_current(source);
        (effects, render || redrawn)
    }
}

} // verus!
