//! Drawing and measuring the display item: which call on the host's device context comes next.
//!
//! A session asks for one call at a time and goes on by what came of it. It works with a font of
//! its own, upright where the host's is not, and leaves the device context as it found it.
#[allow(unused_imports)]
use crate::plugin::{before_nul, horizontal_face};
use crate::plugin::{
    normalizeFontOrientation, without_nul, FontDescription, PluginItem, ITEM_FALLBACK_WIDTH,
    ITEM_HORIZONTAL_PADDING,
};
use vstd::prelude::*;

verus! {

/// Text begins at the left of its rectangle.
pub const FORMAT_LEFT: u32 = 0x0;

/// Text stands in the middle between top and bottom.
pub const FORMAT_VCENTER: u32 = 0x4;

/// Text stays on one line.
pub const FORMAT_SINGLE_LINE: u32 = 0x20;

/// An ampersand is drawn as it is.
pub const FORMAT_NO_PREFIX: u32 = 0x800;

/// Text that does not fit ends with an ellipsis.
pub const FORMAT_END_ELLIPSIS: u32 = 0x8000;

/// How the text of the item is drawn: all of the formats above.
pub const TEXT_FORMAT: u32 = 0x8824;

/// Where the text goes.
#[derive(Debug, Clone, Copy)]
pub struct TextRect {
    pub left: i32,
    pub top: i32,
    pub right: i32,
    pub bottom: i32,
}

/// What a session is for.
#[derive(Debug, Clone, Copy)]
pub enum Task {
    /// To draw the text of the item.
    Draw(TextRect),
    /// To measure the longest text of the item.
    Measure,
}

/// Where a session stands. `font` says whether its own font is selected, `background` is the
/// background mode to go back to (0 for none), `extent` the width that was measured.
#[derive(Debug, Clone, Copy)]
pub enum Stage {
    CurrentFont,
    Description,
    Create(FontDescription),
    Select,
    Discard,
    Background { font: bool },
    Render { font: bool, background: i32 },
    RestoreBackground { font: bool, background: i32 },
    RestoreFont { extent: Option<i32> },
    DeleteFont { extent: Option<i32> },
    Done { extent: Option<i32> },
}

/// A session on the host's device context.
#[derive(Debug, Clone, Copy)]
pub struct Session {
    pub task: Task,
    pub stage: Stage,
}

/// A call on the device context.
#[derive(Debug, Clone, Copy)]
pub enum Action {
    /// Find the font that the host has selected.
    GetCurrentFont,
    /// Describe that font.
    DescribeFont,
    /// Create a font.
    CreateFont(FontDescription),
    /// Select the font that was created.
    SelectFont,
    /// Delete the font that was created.
    DeleteFont,
    /// Set the background mode to transparent.
    SetTransparent,
    /// Draw the text of the item into the rectangle, in the format given.
    DrawText { rect: TextRect, format: u32 },
    /// Measure the sample text of the item.
    MeasureText,
    /// Set the background mode.
    SetBackground(i32),
    /// Select the font that the host had selected.
    SelectPrevious,
    /// Nothing: the session is over. Of a measurement, the width of the text.
    Finish(Option<i32>),
}

/// What came of a call.
#[derive(Debug, Clone, Copy)]
pub enum Event {
    /// Whether the host has a font selected.
    CurrentFont(bool),
    /// The description of the font, where there is one.
    Description(Option<FontDescription>),
    /// Whether the font was created.
    Created(bool),
    /// Whether the font was selected.
    Selected(bool),
    /// The background mode before; 0 where it could not be set.
    Background(i32),
    /// The text was drawn, or measured with this width, where it could be.
    Rendered(Option<i32>),
    /// The call returned.
    Returned,
}

/// The text that a session draws or measures, given what the item shows and its longest text.
pub open spec fn session_text(task: Task, value_w: Seq<u16>, sample_w: Seq<u16>) -> Seq<u16> {
    match task {
        Task::Draw(_) => before_nul(value_w),
        Task::Measure => before_nul(sample_w),
    }
}

/// The upright variant of a font.
pub open spec fn is_upright(font: FontDescription, of: FontDescription) -> bool {
    &&& font.escapement == 0
    &&& font.orientation == 0
    &&& font.face_name@ == horizontal_face(of.face_name@)
    &&& font.style == of.style
}

/// The stage after the font is settled.
pub open spec fn font_settled(task: Task, font: bool) -> Stage {
    match task {
        Task::Draw(_) => Stage::Background { font },
        Task::Measure => Stage::Render { font, background: 0 },
    }
}

/// The stage after the text is done and the background is as it was.
pub open spec fn text_done(font: bool, extent: Option<i32>) -> Stage {
    if font {
        Stage::RestoreFont { extent }
    } else {
        Stage::Done { extent }
    }
}

/// Whether an event is what comes of the call that a stage asks for.
pub open spec fn fits(stage: Stage, event: Event) -> bool {
    match stage {
        Stage::CurrentFont => event is CurrentFont,
        Stage::Description => event is Description,
        Stage::Create(_) => event is Created,
        Stage::Select => event is Selected,
        Stage::Discard => event is Returned,
        Stage::Background { .. } => event is Background,
        Stage::Render { .. } => event is Rendered,
        Stage::RestoreBackground { .. } => event is Returned,
        Stage::RestoreFont { .. } => event is Returned,
        Stage::DeleteFont { .. } => event is Returned,
        Stage::Done { .. } => false,
    }
}

/// Whether `next` is the stage that follows on an event. An event that does not fit changes
/// nothing.
pub open spec fn follows(task: Task, stage: Stage, event: Event, next: Stage) -> bool {
    match (stage, event) {
        (Stage::CurrentFont, Event::CurrentFont(present)) => if present {
            next == Stage::Description
        } else {
            next == font_settled(task, false)
        },
        (Stage::Description, Event::Description(description)) => match description {
            Some(font) => next matches Stage::Create(upright) && is_upright(upright, font),
            None => next == font_settled(task, false),
        },
        (Stage::Create(_), Event::Created(done)) => if done {
            next == Stage::Select
        } else {
            next == font_settled(task, false)
        },
        (Stage::Select, Event::Selected(done)) => if done {
            next == font_settled(task, true)
        } else {
            next == Stage::Discard
        },
        (Stage::Discard, Event::Returned) => next == font_settled(task, false),
        (Stage::Background { font }, Event::Background(background)) => next == (Stage::Render {
            font,
            background,
        }),
        (Stage::Render { font, background }, Event::Rendered(extent)) => if background != 0 {
            next == (Stage::RestoreBackground { font, background })
        } else {
            next == text_done(font, extent)
        },
        (Stage::RestoreBackground { font, .. }, Event::Returned) => next == text_done(font, None),
        (Stage::RestoreFont { extent }, Event::Returned) => next == (Stage::DeleteFont { extent }),
        (Stage::DeleteFont { extent }, Event::Returned) => next == (Stage::Done { extent }),
        _ => next == stage,
    }
}

/// The call that a stage asks for.
pub open spec fn wanted(task: Task, stage: Stage) -> Action {
    match stage {
        Stage::CurrentFont => Action::GetCurrentFont,
        Stage::Description => Action::DescribeFont,
        Stage::Create(font) => Action::CreateFont(font),
        Stage::Select => Action::SelectFont,
        Stage::Discard => Action::DeleteFont,
        Stage::Background { .. } => Action::SetTransparent,
        Stage::Render { .. } => match task {
            Task::Draw(rect) => Action::DrawText { rect, format: TEXT_FORMAT },
            Task::Measure => Action::MeasureText,
        },
        Stage::RestoreBackground { background, .. } => Action::SetBackground(background),
        Stage::RestoreFont { .. } => Action::SelectPrevious,
        Stage::DeleteFont { .. } => Action::DeleteFont,
        Stage::Done { extent } => Action::Finish(extent),
    }
}

/// The rectangle of the text in that of the item.
pub open spec fn text_rect(x: int, y: int, w: int, h: int) -> (int, int, int, int) {
    (x + ITEM_HORIZONTAL_PADDING, y, x + w - ITEM_HORIZONTAL_PADDING, y + h)
}

/// A coordinate that the host can take.
pub open spec fn is_coordinate(v: int) -> bool {
    i32::MIN <= v <= i32::MAX
}

/// How the text of the item is drawn: from the left, in the middle between top and bottom, on one
/// line, with every character as it is, and with an ellipsis at its end where it does not fit.
pub fn text_format() -> (format: u32)
    ensures
        format == TEXT_FORMAT,
        format == 0x8824,
        format == FORMAT_LEFT | FORMAT_VCENTER | FORMAT_SINGLE_LINE | FORMAT_NO_PREFIX
            | FORMAT_END_ELLIPSIS,
{
    assert(0x0u32 | 0x4u32 | 0x20u32 | 0x800u32 | 0x8000u32 == 0x8824u32) by (bit_vector);
    TEXT_FORMAT
}

/// Begins to draw the item, at the place that the host gives. Without an item, a device context
/// or an area there is nothing to draw.
pub fn item_draw_item(
    has_item: bool,
    has_context: bool,
    x: i32,
    y: i32,
    w: i32,
    h: i32,
) -> (session: Option<Session>)
    requires
        has_item && has_context && w > 0 && h > 0 ==> is_coordinate(x + w) && is_coordinate(y + h)
            && is_coordinate(x + ITEM_HORIZONTAL_PADDING) && is_coordinate(
            x + w - ITEM_HORIZONTAL_PADDING,
        ),
    ensures
        session is Some <==> has_item && has_context && w > 0 && h > 0,
        session matches Some(session) ==> session.stage == Stage::CurrentFont && (session.task
            matches Task::Draw(rect) && (
            rect.left as int,
            rect.top as int,
            rect.right as int,
            rect.bottom as int,
        ) == text_rect(x as int, y as int, w as int, h as int)),
{
    if !has_item || !has_context || w <= 0 || h <= 0 {
        return None;
    }
    let rect = TextRect {
        left: x + ITEM_HORIZONTAL_PADDING,
        top: y,
        right: x + w - ITEM_HORIZONTAL_PADDING,
        bottom: y + h,
    };
    Some(Session { task: Task::Draw(rect), stage: Stage::CurrentFont })
}

/// Begins to measure the item. Without an item or a device context there is nothing to measure.
pub fn item_get_width_ex(has_item: bool, has_context: bool) -> (session: Option<Session>)
    ensures
        session is Some <==> has_item && has_context,
        session matches Some(session) ==> session == (Session {
            task: Task::Measure,
            stage: Stage::CurrentFont,
        }),
{
    if has_item && has_context {
        Some(Session { task: Task::Measure, stage: Stage::CurrentFont })
    } else {
        None
    }
}

/// The width of the item for the width of its text, where that was measured.
pub open spec fn width_of(extent: Option<i32>) -> int {
    match extent {
        Some(cx) => cx + ITEM_HORIZONTAL_PADDING * 2,
        None => ITEM_FALLBACK_WIDTH as int,
    }
}

/// The width of the item: that of its sample text and the space at both sides, or a fixed one
/// where the text was not measured.
pub fn item_width(extent: Option<i32>) -> (width: i32)
    requires
        extent matches Some(cx) ==> is_coordinate(cx + ITEM_HORIZONTAL_PADDING * 2),
    ensures
        width == (match extent {
            Some(cx) => cx + ITEM_HORIZONTAL_PADDING * 2,
            None => ITEM_FALLBACK_WIDTH as int,
        }),
        width == width_of(extent),
{
    match extent {
        Some(cx) => cx + ITEM_HORIZONTAL_PADDING * 2,
        None => ITEM_FALLBACK_WIDTH,
    }
}

/// The stage after the font is settled.
fn after_font(task: Task, font: bool) -> (stage: Stage)
    ensures
        stage == font_settled(task, font),
{
    match task {
        Task::Draw(_) => Stage::Background { font },
        Task::Measure => Stage::Render { font, background: 0 },
    }
}

/// The stage after the text is done and the background is as it was.
fn after_text(font: bool, extent: Option<i32>) -> (stage: Stage)
    ensures
        stage == text_done(font, extent),
{
    if font {
        Stage::RestoreFont { extent }
    } else {
        Stage::Done { extent }
    }
}

/// On the way to an upright font: what follows once the host's font is found, described, and its
/// upright variant created.
#[allow(non_snake_case)]
fn createHorizontalFont(task: Task, stage: Stage, event: Event) -> (next: Stage)
    requires
        stage is CurrentFont || stage is Description || stage is Create,
    ensures
        follows(task, stage, event, next),
{
    match (stage, event) {
        (Stage::CurrentFont, Event::CurrentFont(present)) => if present {
            Stage::Description
        } else {
            after_font(task, false)
        },
        (Stage::Description, Event::Description(description)) => match description {
            Some(font) => {
                let mut upright: FontDescription = font;
                normalizeFontOrientation(&mut upright);
                Stage::Create(upright)
            },
            None => after_font(task, false),
        },
        (Stage::Create(_), Event::Created(done)) => if done {
            Stage::Select
        } else {
            after_font(task, false)
        },
        _ => stage,
    }
}

/// On the way to an upright font: what follows once the one that was created is selected. One
/// that cannot be selected is deleted.
#[allow(non_snake_case)]
fn selectHorizontalFont(task: Task, stage: Stage, event: Event) -> (next: Stage)
    requires
        stage is Select || stage is Discard,
    ensures
        follows(task, stage, event, next),
{
    match (stage, event) {
        (Stage::Select, Event::Selected(done)) => if done {
            after_font(task, true)
        } else {
            Stage::Discard
        },
        (Stage::Discard, Event::Returned) => after_font(task, false),
        _ => stage,
    }
}

impl Session {
    /// The text that is drawn or measured: what the item shows, or its longest text.
    pub fn text<'a>(&self, item: &'a PluginItem) -> (text: &'a [u16])
        ensures
            text@ == (match self.task {
                Task::Draw(_) => before_nul(item.value_w@),
                Task::Measure => before_nul(item.sample_w@),
            }),
            text@ == session_text(self.task, item.value_w@, item.sample_w@),
    {
        match self.task {
            Task::Draw(_) => without_nul(&item.value_w),
            Task::Measure => without_nul(&item.sample_w),
        }
    }

    /// The call that comes next.
    pub fn action(&self) -> (action: Action)
        ensures
            action == wanted(self.task, self.stage),
    {
        match self.stage {
            Stage::CurrentFont => Action::GetCurrentFont,
            Stage::Description => Action::DescribeFont,
            Stage::Create(font) => Action::CreateFont(font),
            Stage::Select => Action::SelectFont,
            Stage::Discard => Action::DeleteFont,
            Stage::Background { .. } => Action::SetTransparent,
            Stage::Render { .. } => match self.task {
                Task::Draw(rect) => Action::DrawText { rect, format: text_format() },
                Task::Measure => Action::MeasureText,
            },
            Stage::RestoreBackground { background, .. } => Action::SetBackground(background),
            Stage::RestoreFont { .. } => Action::SelectPrevious,
            Stage::DeleteFont { .. } => Action::DeleteFont,
            Stage::Done { extent } => Action::Finish(extent),
        }
    }

    /// Goes on by what came of the call.
    pub fn advance(self, event: Event) -> (next: Session)
        ensures
            next.task == self.task,
            follows(self.task, self.stage, event, next.stage),
    {
        let task = self.task;
        let stage = match self.stage {
            Stage::CurrentFont => createHorizontalFont(task, self.stage, event),
            Stage::Description => createHorizontalFont(task, self.stage, event),
            Stage::Create(_) => createHorizontalFont(task, self.stage, event),
            Stage::Select => selectHorizontalFont(task, self.stage, event),
            Stage::Discard => selectHorizontalFont(task, self.stage, event),
            Stage::Background { font } => match event {
                Event::Background(background) => Stage::Render { font, background },
                _ => self.stage,
            },
            Stage::Render { font, background } => match event {
                Event::Rendered(extent) => if background != 0 {
                    Stage::RestoreBackground { font, background }
                } else {
                    after_text(font, extent)
                },
                _ => self.stage,
            },
            Stage::RestoreBackground { font, .. } => match event {
                Event::Returned => after_text(font, None),
                _ => self.stage,
            },
            Stage::RestoreFont { extent } => match event {
                Event::Returned => Stage::DeleteFont { extent },
                _ => self.stage,
            },
            Stage::DeleteFont { extent } => match event {
                Event::Returned => Stage::Done { extent },
                _ => self.stage,
            },
            Stage::Done { .. } => self.stage,
        };
        Session { task, stage }
    }
}

/// What a session has changed on the host's side.
pub struct Traces {
    /// How many fonts it has created and not deleted.
    pub fonts: int,
    /// Whether its own font is selected.
    pub font_selected: bool,
    /// The background mode before, where it has been changed.
    pub background: Option<i32>,
}

/// Nothing is changed.
pub open spec fn untouched() -> Traces {
    Traces { fonts: 0, font_selected: false, background: None }
}

/// The changes after a call, by what came of it.
pub open spec fn traces_after(traces: Traces, action: Action, event: Event) -> Traces {
    match (action, event) {
        (Action::CreateFont(_), Event::Created(true)) => Traces {
            fonts: traces.fonts + 1,
            ..traces
        },
        (Action::DeleteFont, Event::Returned) => Traces { fonts: traces.fonts - 1, ..traces },
        (Action::SelectFont, Event::Selected(true)) => Traces { font_selected: true, ..traces },
        (Action::SelectPrevious, Event::Returned) => Traces { font_selected: false, ..traces },
        (Action::SetTransparent, Event::Background(before)) => if before != 0 {
            Traces { background: Some(before), ..traces }
        } else {
            traces
        },
        (Action::SetBackground(mode), Event::Returned) => if traces.background == Some(mode) {
            Traces { background: None, ..traces }
        } else {
            traces
        },
        _ => traces,
    }
}

/// What a session that stands at a stage has changed.
pub open spec fn traces_at(stage: Stage) -> Traces {
    match stage {
        Stage::CurrentFont => untouched(),
        Stage::Description => untouched(),
        Stage::Create(_) => untouched(),
        Stage::Select => Traces { fonts: 1, ..untouched() },
        Stage::Discard => Traces { fonts: 1, ..untouched() },
        Stage::Background { font } => with_font(font),
        Stage::Render { font, background } => Traces {
            background: if background != 0 {
                Some(background)
            } else {
                None
            },
            ..with_font(font)
        },
        Stage::RestoreBackground { font, background } => Traces {
            background: Some(background),
            ..with_font(font)
        },
        Stage::RestoreFont { .. } => with_font(true),
        Stage::DeleteFont { .. } => Traces { fonts: 1, ..untouched() },
        Stage::Done { .. } => untouched(),
    }
}

/// The changes where the background is as it was, with or without an own font selected.
pub open spec fn with_font(font: bool) -> Traces {
    Traces {
        fonts: if font {
            1
        } else {
            0
        },
        font_selected: font,
        background: None,
    }
}

/// A course of a session: it starts at the first stage, and each event is what came of the call
/// that its stage asks for.
pub open spec fn is_course(task: Task, stages: Seq<Stage>, events: Seq<Event>) -> bool {
    &&& stages.len() == events.len() + 1
    &&& stages[0] == Stage::CurrentFont
    &&& forall|i: int|
        0 <= i < events.len() ==> fits(#[trigger] stages[i], events[i]) && follows(
            task,
            stages[i],
            events[i],
            stages[i + 1],
        )
}

/// What a session has changed after its first `n` calls.
pub open spec fn traces_of(task: Task, stages: Seq<Stage>, events: Seq<Event>, n: int) -> Traces
    decreases n,
{
    if n <= 0 {
        untouched()
    } else {
        traces_after(
            traces_of(task, stages, events, n - 1),
            wanted(task, stages[n - 1]),
            events[n - 1],
        )
    }
}

/// The changes made so far are those of the stage at which the session stands.
proof fn lemma_traces(task: Task, stages: Seq<Stage>, events: Seq<Event>, n: int)
    requires
        is_course(task, stages, events),
        0 <= n <= events.len(),
    ensures
        traces_of(task, stages, events, n) == traces_at(stages[n]),
        stages[n] matches Stage::RestoreBackground { background, .. } ==> background != 0,
    decreases n,
{
    if n > 0 {
        lemma_traces(task, stages, events, n - 1);
        let before = stages[n - 1];
        assert(fits(before, events[n - 1]) && follows(task, before, events[n - 1], stages[n]));
    }
}

/// A session that is over has left nothing behind: its font is deleted, the host's font is
/// selected, and the background mode is what it was.
pub proof fn device_context_is_restored(task: Task, stages: Seq<Stage>, events: Seq<Event>)
    requires
        is_course(task, stages, events),
        stages.last() is Done,
    ensures
        traces_of(task, stages, events, events.len() as int) == untouched(),
{
    lemma_traces(task, stages, events, events.len() as int);
}

/// A font is deleted only while it is not selected, and only one that was created.
pub proof fn font_is_deleted_unselected(task: Task, stages: Seq<Stage>, events: Seq<Event>, n: int)
    requires
        is_course(task, stages, events),
        0 <= n <= events.len(),
        wanted(task, stages[n]) is DeleteFont,
    ensures
        traces_of(task, stages, events, n).fonts == 1,
        !traces_of(task, stages, events, n).font_selected,
{
    lemma_traces(task, stages, events, n);
}

/// How many of the first `n` calls of a session draw or measure the text.
pub open spec fn renderings(task: Task, stages: Seq<Stage>, n: int) -> int
    decreases n,
{
    if n <= 0 {
        0
    } else {
        let action = wanted(task, stages[n - 1]);
        renderings(task, stages, n - 1) + (if action is DrawText || action is MeasureText {
            1int
        } else {
            0int
        })
    }
}

/// Whether the text is drawn or measured before a stage.
pub open spec fn is_rendered(stage: Stage) -> bool {
    stage is RestoreBackground || stage is RestoreFont || stage is DeleteFont || stage is Done
}

proof fn lemma_renderings(task: Task, stages: Seq<Stage>, events: Seq<Event>, n: int)
    requires
        is_course(task, stages, events),
        0 <= n <= events.len(),
    ensures
        renderings(task, stages, n) == (if is_rendered(stages[n]) {
            1int
        } else {
            0int
        }),
        is_rendered(stages[n]) ==> exists|i: int|
            0 <= i < n && #[trigger] stages[i] is Render && (task is Measure ==> events[i]
                == Event::Rendered(extent_at(stages[n]))),
        task is Measure ==> !(stages[n] is Background || stages[n] is RestoreBackground) && (
        stages[n] matches Stage::Render { background, .. } ==> background == 0),
    decreases n,
{
    if n > 0 {
        lemma_renderings(task, stages, events, n - 1);
        let before = stages[n - 1];
        assert(fits(before, events[n - 1]) && follows(task, before, events[n - 1], stages[n]));
        if is_rendered(before) {
            let i = choose|i: int|
                0 <= i < n - 1 && #[trigger] stages[i] is Render && (task is Measure ==> events[i]
                    == Event::Rendered(extent_at(before)));
            assert(stages[i] is Render);
        } else if is_rendered(stages[n]) {
            assert(stages[n - 1] is Render);
        }
    }
}

/// The width that a stage carries along.
pub open spec fn extent_at(stage: Stage) -> Option<i32> {
    match stage {
        Stage::RestoreFont { extent } => extent,
        Stage::DeleteFont { extent } => extent,
        Stage::Done { extent } => extent,
        _ => None,
    }
}

/// A session that draws, once it is over, has drawn the text exactly once, into its rectangle, on
/// one line, and has measured nothing.
pub proof fn text_is_drawn_once(rect: TextRect, stages: Seq<Stage>, events: Seq<Event>)
    requires
        is_course(Task::Draw(rect), stages, events),
        stages.last() is Done,
    ensures
        renderings(Task::Draw(rect), stages, events.len() as int) == 1,
        exists|i: int|
            0 <= i < events.len() && #[trigger] wanted(Task::Draw(rect), stages[i])
                == (Action::DrawText { rect, format: TEXT_FORMAT }),
        forall|i: int|
            0 <= i < stages.len() ==> !(#[trigger] wanted(
                Task::Draw(rect),
                stages[i],
            ) is MeasureText),
{
    let task = Task::Draw(rect);
    let n = events.len() as int;
    lemma_renderings(task, stages, events, n);
    let i = choose|i: int|
        0 <= i < n && #[trigger] stages[i] is Render && (task is Measure ==> events[i]
            == Event::Rendered(extent_at(stages[n])));
    assert(wanted(task, stages[i]) == (Action::DrawText { rect, format: TEXT_FORMAT }));
}

/// A session that measures, once it is over, has measured the text exactly once, gives the width
/// that was measured, and has drawn nothing.
pub proof fn text_is_measured_once(stages: Seq<Stage>, events: Seq<Event>)
    requires
        is_course(Task::Measure, stages, events),
        stages.last() is Done,
    ensures
        renderings(Task::Measure, stages, events.len() as int) == 1,
        exists|i: int|
            0 <= i < events.len() && #[trigger] wanted(Task::Measure, stages[i]) is MeasureText
                && events[i] == Event::Rendered(extent_at(stages.last())),
        forall|i: int|
            0 <= i < stages.len() ==> !(#[trigger] wanted(Task::Measure, stages[i]) is DrawText),
        wanted(Task::Measure, stages.last()) == Action::Finish(extent_at(stages.last())),
{
    let n = events.len() as int;
    lemma_renderings(Task::Measure, stages, events, n);
    let i = choose|i: int|
        0 <= i < n && #[trigger] stages[i] is Render && events[i] == Event::Rendered(
            extent_at(stages[n]),
        );
    assert(wanted(Task::Measure, stages[i]) is MeasureText);
}

/// How many calls are left at most.
pub open spec fn calls_left(stage: Stage) -> int {
    match stage {
        Stage::CurrentFont => 10,
        Stage::Description => 9,
        Stage::Create(_) => 8,
        Stage::Select => 7,
        Stage::Discard => 6,
        Stage::Background { .. } => 5,
        Stage::Render { .. } => 4,
        Stage::RestoreBackground { .. } => 3,
        Stage::RestoreFont { .. } => 2,
        Stage::DeleteFont { .. } => 1,
        Stage::Done { .. } => 0,
    }
}

/// Every call brings a session nearer to its end.
pub proof fn session_comes_to_an_end(task: Task, stage: Stage, event: Event, next: Stage)
    requires
        fits(stage, event),
        follows(task, stage, event, next),
    ensures
        0 <= calls_left(next) < calls_left(stage),
        calls_left(stage) == 0 <==> stage is Done,
{
}

/// The text has the whole of the item but for four units at its left and four at its right, and the
/// item is as much wider than its text; unmeasured, it is 190 wide.
pub proof fn padding_is_the_same_at_both_sides(x: int, y: int, w: int, h: int, cx: i32)
    ensures
        text_rect(x, y, w, h).0 == x + 4,
        text_rect(x, y, w, h).1 == y,
        text_rect(x, y, w, h).2 == x + w - 4,
        text_rect(x, y, w, h).3 == y + h,
        width_of(Some(cx)) == cx + 8,
        width_of(None) == 190,
        text_rect(x, y, width_of(Some(cx)), h).2 - text_rect(x, y, width_of(Some(cx)), h).0 == cx,
{
}

/// Each success on the way to a font of its own leads a session one call further: it describes the
/// host's font, whichever that is, creates its upright variant in the same style, and selects it.
/// One that cannot be selected is deleted.
pub proof fn upright_font_is_sought(
    task: Task,
    font: FontDescription,
    created: FontDescription,
    next: Stage,
)
    ensures
        follows(task, Stage::CurrentFont, Event::CurrentFont(true), next) ==> wanted(task, next)
            == Action::DescribeFont,
        follows(task, Stage::Description, Event::Description(Some(font)), next) ==> (wanted(
            task,
            next,
        ) matches Action::CreateFont(upright) && {
            &&& upright.escapement == 0
            &&& upright.orientation == 0
            &&& upright.style == font.style
            &&& upright.face_name@ == horizontal_face(font.face_name@)
        }),
        follows(task, Stage::Create(created), Event::Created(true), next) ==> wanted(task, next)
            == Action::SelectFont,
        follows(task, Stage::Select, Event::Selected(false), next) ==> wanted(task, next)
            == Action::DeleteFont,
{
}

/// Whatever fails on the way to a font of its own, and also where nothing does, a session goes on
/// with its task: it sets the background and draws, or it measures.
pub proof fn task_goes_on_whatever_the_font(task: Task, created: FontDescription, next: Stage)
    ensures
        ({
            ||| follows(task, Stage::CurrentFont, Event::CurrentFont(false), next)
            ||| follows(task, Stage::Description, Event::Description(None), next)
            ||| follows(task, Stage::Create(created), Event::Created(false), next)
            ||| follows(task, Stage::Select, Event::Selected(true), next)
            ||| follows(task, Stage::Discard, Event::Returned, next)
        }) ==> (match task {
            Task::Draw(_) => wanted(task, next) == Action::SetTransparent,
            Task::Measure => wanted(task, next) == Action::MeasureText,
        }),
{
}

/// An event that is not what comes of the call that was asked for changes nothing, whatever it is.
pub proof fn other_events_change_nothing(task: Task, stage: Stage, event: Event, next: Stage)
    requires
        !fits(stage, event),
        follows(task, stage, event, next),
    ensures
        next == stage,
{
}

/// The text is drawn or measured with the session's own font just where that font was selected.
pub proof fn text_has_the_font_that_was_selected(
    task: Task,
    stages: Seq<Stage>,
    events: Seq<Event>,
    n: int,
)
    requires
        is_course(task, stages, events),
        0 <= n <= events.len(),
        stages[n] is Render,
    ensures
        traces_of(task, stages, events, n).font_selected <==> exists|k: int|
            0 <= k < n && #[trigger] events[k] == Event::Selected(true),
{
    lemma_traces(task, stages, events, n);
    lemma_selected(task, stages, events, n);
}

/// Whether the session's own font is selected at a stage before the text is done.
spec fn is_selected(stage: Stage) -> bool {
    match stage {
        Stage::Background { font } => font,
        Stage::Render { font, .. } => font,
        _ => false,
    }
}

/// Whether a stage comes before the text is done.
spec fn is_early(stage: Stage) -> bool {
    !is_rendered(stage)
}

proof fn lemma_selected(task: Task, stages: Seq<Stage>, events: Seq<Event>, n: int)
    requires
        is_course(task, stages, events),
        0 <= n <= events.len(),
        is_early(stages[n]),
    ensures
        is_selected(stages[n]) <==> exists|k: int|
            0 <= k < n && #[trigger] events[k] == Event::Selected(true),
    decreases n,
{
    if n > 0 {
        let before = stages[n - 1];
        let event = events[n - 1];
        assert(fits(before, event) && follows(task, before, event, stages[n]));
        lemma_selected(task, stages, events, n - 1);
        if exists|k: int| 0 <= k < n && #[trigger] events[k] == Event::Selected(true) {
            let k = choose|k: int| 0 <= k < n && #[trigger] events[k] == Event::Selected(true);
            if k < n - 1 {
                assert(exists|k: int| 0 <= k < n - 1 && #[trigger] events[k] == Event::Selected(true));
                assert(is_selected(before));
            } else {
                assert(event == Event::Selected(true));
            }
            assert(is_selected(stages[n]));
        }
        if is_selected(stages[n]) {
            if event == Event::Selected(true) {
                assert(events[n - 1] == Event::Selected(true));
            } else {
                assert(is_selected(before));
                let k = choose|k: int| 0 <= k < n - 1 && #[trigger] events[k] == Event::Selected(true);
                assert(events[k] == Event::Selected(true));
            }
        }
    }
}

/// A session that draws has set the background to transparent before it draws.
pub proof fn background_is_set_before_drawing(
    rect: TextRect,
    stages: Seq<Stage>,
    events: Seq<Event>,
    n: int,
)
    requires
        is_course(Task::Draw(rect), stages, events),
        0 < n <= events.len(),
        wanted(Task::Draw(rect), stages[n]) is DrawText,
    ensures
        wanted(Task::Draw(rect), stages[n - 1]) == Action::SetTransparent,
{
    let before = stages[n - 1];
    assert(fits(before, events[n - 1]) && follows(
        Task::Draw(rect),
        before,
        events[n - 1],
        stages[n],
    ));
}

/// Every call but the end of a session has its event: the one that tells what came of it.
pub proof fn every_call_has_its_event(
    font: FontDescription,
    described: Option<FontDescription>,
    done: bool,
    own: bool,
    mode: i32,
    extent: Option<i32>,
)
    ensures
        fits(Stage::CurrentFont, Event::CurrentFont(done)),
        fits(Stage::Description, Event::Description(described)),
        fits(Stage::Create(font), Event::Created(done)),
        fits(Stage::Select, Event::Selected(done)),
        fits(Stage::Discard, Event::Returned),
        fits(Stage::Background { font: own }, Event::Background(mode)),
        fits(Stage::Render { font: own, background: mode }, Event::Rendered(extent)),
        fits(Stage::RestoreBackground { font: own, background: mode }, Event::Returned),
        fits(Stage::RestoreFont { extent }, Event::Returned),
        fits(Stage::DeleteFont { extent }, Event::Returned),
{
}

/// What is drawn is the whole of what the item shows, and what is measured the whole of its longest
/// text, each up to the zero at its end, however long it is.
pub proof fn whole_text_is_drawn_and_measured(
    rect: TextRect,
    value: Seq<u16>,
    sample: Seq<u16>,
)
    ensures
        session_text(Task::Draw(rect), value.push(0), sample) == value,
        session_text(Task::Measure, value, sample.push(0)) == sample,
{
    assert(value.push(0).drop_last() =~= value);
    assert(sample.push(0).drop_last() =~= sample);
}

} // verus!
