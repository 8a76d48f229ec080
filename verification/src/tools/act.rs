//! `act`: acting on a page through refs from the last snapshot or viewport
//! coordinates.
//!
//! The argument rules stand here: which input commands a call sends, in what
//! order, the message it is refused with when an argument it needs is
//! missing, and what it answers. Coordinates and scroll amounts are carried
//! through untouched as the caller's coordinate type `C`.

use vstd::prelude::*;

use crate::text::{ascii_lowercase, ascii_lowercase_of, push_str, same_text};

verus! {

pub const DESCRIPTION: &'static str = "Act on the page using refs from the last snapshot. kinds: click, type (into focused element), fill (ref+value, or many via fields[]), press (key/combo), hover, focus, check, uncheck, select (option value), scroll, drag. dialog_accept/dialog_dismiss handle pending JavaScript dialogs. ALWAYS fill a whole form in one call via fields[], never field-by-field. Reads back a post-settle diff unless `diff` is \"none\". `diff`: \"full\" (default), \"summary\", \"none\". `maxChars` caps the inline diff. re-snapshot only for fresh refs.";

/// How `act` is announced.
pub fn definition() -> (r: crate::framework::ToolDef)
    ensures
        r.name@ == "act"@,
        r.description@ == DESCRIPTION@,
        r.hints == crate::framework::ToolHints::Unannotated,
        r.metadata.accepts_page_arg == crate::framework::takes_page("act"@),
{
    crate::framework::tool_def("act", DESCRIPTION, crate::framework::ToolHints::Unannotated)
}

/// The kinds of action `act` performs.
#[derive(Clone, Copy, PartialEq, Eq, Structural, Debug)]
pub enum ActKind {
    Click,
    ClickAt,
    Type,
    TypeAt,
    Fill,
    Press,
    Hover,
    HoverAt,
    Focus,
    Check,
    Uncheck,
    Select,
    Scroll,
    Drag,
    DragAt,
    DialogAccept,
    DialogDismiss,
}

/// The wire name of an action kind.
pub open spec fn act_kind_name(k: ActKind) -> Seq<char> {
    match k {
        ActKind::Click => "click"@,
        ActKind::ClickAt => "click_at"@,
        ActKind::Type => "type"@,
        ActKind::TypeAt => "type_at"@,
        ActKind::Fill => "fill"@,
        ActKind::Press => "press"@,
        ActKind::Hover => "hover"@,
        ActKind::HoverAt => "hover_at"@,
        ActKind::Focus => "focus"@,
        ActKind::Check => "check"@,
        ActKind::Uncheck => "uncheck"@,
        ActKind::Select => "select"@,
        ActKind::Scroll => "scroll"@,
        ActKind::Drag => "drag"@,
        ActKind::DragAt => "drag_at"@,
        ActKind::DialogAccept => "dialog_accept"@,
        ActKind::DialogDismiss => "dialog_dismiss"@,
    }
}

impl ActKind {
    /// The wire name of the kind, as `kind` is written in the arguments.
    pub fn as_str(&self) -> (r: &'static str)
        ensures
            r@ == act_kind_name(*self),
    {
        match self {
            ActKind::Click => "click",
            ActKind::ClickAt => "click_at",
            ActKind::Type => "type",
            ActKind::TypeAt => "type_at",
            ActKind::Fill => "fill",
            ActKind::Press => "press",
            ActKind::Hover => "hover",
            ActKind::HoverAt => "hover_at",
            ActKind::Focus => "focus",
            ActKind::Check => "check",
            ActKind::Uncheck => "uncheck",
            ActKind::Select => "select",
            ActKind::Scroll => "scroll",
            ActKind::Drag => "drag",
            ActKind::DragAt => "drag_at",
            ActKind::DialogAccept => "dialog_accept",
            ActKind::DialogDismiss => "dialog_dismiss",
        }
    }

    /// Whether the kind answers a pending JavaScript dialog.
    pub fn is_dialog(&self) -> (r: bool)
        ensures
            r == (*self is DialogAccept || *self is DialogDismiss),
    {
        match self {
            ActKind::DialogAccept | ActKind::DialogDismiss => true,
            _ => false,
        }
    }
}

/// Scroll direction as the arguments give it.
#[derive(Clone, Copy, PartialEq, Eq, Structural, Debug)]
pub enum ActDirection {
    Up,
    Down,
    Left,
    Right,
}

/// Scroll direction handed to the input layer.
#[derive(Clone, Copy, PartialEq, Eq, Structural, Debug)]
pub enum ScrollDirection {
    Up,
    Down,
    Left,
    Right,
}

/// Mouse button of a click.
#[derive(Clone, Copy, PartialEq, Eq, Structural, Debug)]
pub enum MouseButton {
    Left,
    Middle,
    Right,
}

/// One field of a multi-field fill.
pub struct FillField {
    pub element_ref: String,
    pub value: String,
}

/// The arguments of `act`; `C` is the caller's coordinate type, also used for
/// the scroll amount in wheel notches.
pub struct ActArgs<C> {
    pub page: u32,
    pub kind: ActKind,
    /// Target element ref, e.g. "e12".
    pub element_ref: Option<String>,
    pub text: Option<String>,
    pub value: Option<String>,
    pub fields: Option<Vec<FillField>>,
    pub key: Option<String>,
    pub direction: Option<ActDirection>,
    pub amount: Option<C>,
    pub x: Option<C>,
    pub y: Option<C>,
    pub target_ref: Option<String>,
    pub start_x: Option<C>,
    pub start_y: Option<C>,
    pub end_x: Option<C>,
    pub end_y: Option<C>,
    pub button: Option<MouseButton>,
    pub click_count: Option<i64>,
    pub clear: Option<bool>,
    /// "full" (default), "summary" or "none".
    pub diff: Option<String>,
    /// Caps the inline diff.
    pub max_chars: Option<u64>,
}

/// Button and click count of a click.
#[derive(Clone, Copy, PartialEq, Eq, Structural, Debug)]
pub struct ClickOptions {
    pub button: Option<MouseButton>,
    pub click_count: Option<i64>,
}

/// One command for the input layer.
pub enum InputCommand<C> {
    Click { element_ref: String, options: ClickOptions },
    ClickAt { x: C, y: C, options: ClickOptions },
    TypeText { text: String },
    TypeAt { x: C, y: C, text: String, clear: bool },
    Fill { element_ref: String, value: String, clear: bool },
    Press { key: String },
    Hover { element_ref: String },
    HoverAt { x: C, y: C },
    Focus { element_ref: String },
    Check { element_ref: String },
    Uncheck { element_ref: String },
    SelectOption { element_ref: String, value: String },
    /// `amount` is the caller's amount; the input layer defaults it to 3 notches.
    Scroll { direction: ScrollDirection, amount: Option<C>, element_ref: Option<String> },
    Drag { from: String, to: String },
    DragAt { start_x: C, start_y: C, end_x: C, end_y: C },
    HandleDialog { accept: bool, prompt_text: Option<String> },
}

/// How a call to `act` proceeds.
pub struct ActPlan<C> {
    pub page: u32,
    pub kind: ActKind,
    /// Whether a pending dialog on the page answers the call before anything runs.
    pub checks_pending_dialog: bool,
    /// The commands to send in order, or the message the call is refused with.
    pub steps: Result<Vec<InputCommand<C>>, String>,
    /// Whether the page's pending dialog is cleared after the commands ran.
    pub clears_dialog: bool,
    /// `None`: no diff is read back; `Some(full)`: a diff, full or summary.
    pub diff: Option<bool>,
    /// The reply text, "ok ({kind})".
    pub reply: String,
}

pub open spec fn scroll_direction_of(d: Option<ActDirection>) -> ScrollDirection {
    match d {
        Some(ActDirection::Up) => ScrollDirection::Up,
        Some(ActDirection::Left) => ScrollDirection::Left,
        Some(ActDirection::Right) => ScrollDirection::Right,
        _ => ScrollDirection::Down,
    }
}

/// The direction to scroll: the one given, down by default.
pub fn scroll_direction(direction: Option<ActDirection>) -> (r: ScrollDirection)
    ensures
        r == scroll_direction_of(direction),
{
    match direction {
        Some(ActDirection::Up) => ScrollDirection::Up,
        Some(ActDirection::Left) => ScrollDirection::Left,
        Some(ActDirection::Right) => ScrollDirection::Right,
        _ => ScrollDirection::Down,
    }
}

pub open spec fn fill_commands<C>(fields: Seq<FillField>, clear: bool) -> Seq<InputCommand<C>> {
    Seq::new(
        fields.len(),
        |i: int| InputCommand::Fill { element_ref: fields[i].element_ref, value: fields[i].value, clear },
    )
}

pub open spec fn missing_ref(k: ActKind) -> Seq<char> {
    "act "@ + act_kind_name(k) + ": ref is required."@
}

pub open spec fn missing_point(k: ActKind) -> Seq<char> {
    "act "@ + act_kind_name(k) + ": x and y are required."@
}

pub open spec fn one<C>(c: InputCommand<C>) -> Result<Seq<InputCommand<C>>, Seq<char>> {
    Ok(seq![c])
}

/// The commands a call sends, or the message it is refused with.
pub open spec fn act_steps<C>(a: ActArgs<C>) -> Result<Seq<InputCommand<C>>, Seq<char>> {
    let options = ClickOptions { button: a.button, click_count: a.click_count };
    let clear = match a.clear { Some(b) => b, None => false };
    match a.kind {
        ActKind::Click => match a.element_ref {
            Some(r) => one(InputCommand::Click { element_ref: r, options }),
            None => Err(missing_ref(a.kind)),
        },
        ActKind::ClickAt => match (a.x, a.y) {
            (Some(x), Some(y)) => one(InputCommand::ClickAt { x, y, options }),
            _ => Err(missing_point(a.kind)),
        },
        ActKind::Type => match a.text {
            Some(t) => one(InputCommand::TypeText { text: t }),
            None => Err("act type: text is required."@),
        },
        ActKind::TypeAt => match (a.x, a.y) {
            (Some(x), Some(y)) => match a.text {
                Some(t) => one(InputCommand::TypeAt { x, y, text: t, clear }),
                None => Err("act type_at: text is required."@),
            },
            _ => Err(missing_point(a.kind)),
        },
        ActKind::Fill => match a.fields {
            Some(fs) => Ok(fill_commands(fs@, clear)),
            None => match (a.element_ref, a.value) {
                (Some(r), Some(v)) => one(InputCommand::Fill { element_ref: r, value: v, clear }),
                _ => Err("act fill: provide fields[] or both ref and value."@),
            },
        },
        ActKind::Press => match a.key {
            Some(k) => one(InputCommand::Press { key: k }),
            None => Err("act press: key is required."@),
        },
        ActKind::Hover => match a.element_ref {
            Some(r) => one(InputCommand::Hover { element_ref: r }),
            None => Err(missing_ref(a.kind)),
        },
        ActKind::HoverAt => match (a.x, a.y) {
            (Some(x), Some(y)) => one(InputCommand::HoverAt { x, y }),
            _ => Err(missing_point(a.kind)),
        },
        ActKind::Focus => match a.element_ref {
            Some(r) => one(InputCommand::Focus { element_ref: r }),
            None => Err(missing_ref(a.kind)),
        },
        ActKind::Check => match a.element_ref {
            Some(r) => one(InputCommand::Check { element_ref: r }),
            None => Err(missing_ref(a.kind)),
        },
        ActKind::Uncheck => match a.element_ref {
            Some(r) => one(InputCommand::Uncheck { element_ref: r }),
            None => Err(missing_ref(a.kind)),
        },
        ActKind::Select => match (a.element_ref, a.value) {
            (Some(r), Some(v)) => one(InputCommand::SelectOption { element_ref: r, value: v }),
            _ => Err("act select: ref and value are required."@),
        },
        ActKind::Scroll => one(
            InputCommand::Scroll {
                direction: scroll_direction_of(a.direction),
                amount: a.amount,
                element_ref: a.element_ref,
            },
        ),
        ActKind::Drag => match (a.element_ref, a.target_ref) {
            (Some(r), Some(t)) => one(InputCommand::Drag { from: r, to: t }),
            _ => Err("act drag: ref and targetRef are required."@),
        },
        ActKind::DragAt => match (a.start_x, a.start_y, a.end_x, a.end_y) {
            (Some(sx), Some(sy), Some(ex), Some(ey)) => one(
                InputCommand::DragAt { start_x: sx, start_y: sy, end_x: ex, end_y: ey },
            ),
            _ => Err("act drag_at: startX, startY, endX, and endY are required."@),
        },
        ActKind::DialogAccept => one(InputCommand::HandleDialog { accept: true, prompt_text: a.text }),
        ActKind::DialogDismiss => one(InputCommand::HandleDialog { accept: false, prompt_text: None }),
    }
}

/// The diff read back after the action: `None` when the mode is "none",
/// else whether it is full (any mode but "summary"). Modes are matched
/// without regard to ASCII case; no mode means "full".
pub open spec fn diff_choice(diff: Option<Seq<char>>) -> Option<bool> {
    match diff {
        None => Some(true),
        Some(d) => if ascii_lowercase_of(d) == "none"@ {
            None
        } else {
            Some(ascii_lowercase_of(d) != "summary"@)
        },
    }
}

pub open spec fn opt_view(s: Option<String>) -> Option<Seq<char>> {
    match s {
        Some(t) => Some(t@),
        None => None,
    }
}

/// Decides how the diff after the action is read back.
pub fn diff_request(diff: &Option<String>) -> (r: Option<bool>)
    ensures
        r == diff_choice(opt_view(*diff)),
{
    match diff {
        None => Some(true),
        Some(d) => {
            let mode = ascii_lowercase(d.as_str());
            if same_text(mode.as_str(), "none") {
                None
            } else {
                Some(!same_text(mode.as_str(), "summary"))
            }
        },
    }
}

pub open spec fn act_reply(k: ActKind) -> Seq<char> {
    "ok ("@ + act_kind_name(k) + ")"@
}

fn take_fill_commands<C>(fields: Vec<FillField>, clear: bool) -> (r: Vec<InputCommand<C>>)
    ensures
        r@ == fill_commands::<C>(fields@, clear),
{
    let ghost given = fields@;
    let mut rest = fields;
    let mut r: Vec<InputCommand<C>> = Vec::new();
    while rest.len() > 0
        invariant
            r.len() + rest.len() == given.len(),
            rest@ == given.skip(r.len() as int),
            forall|i: int| 0 <= i < r.len() ==> r@[i] == fill_commands::<C>(given, clear)[i],
        decreases rest.len(),
    {
        let f = rest.remove(0);
        proof {
            assert(given.skip(r.len() as int)[0] == f);
        }
        r.push(InputCommand::Fill { element_ref: f.element_ref, value: f.value, clear });
        assert(rest@ =~= given.skip(r.len() as int));
    }
    assert(r@ =~= fill_commands::<C>(given, clear));
    r
}

fn err_with_kind(k: ActKind, tail: &str) -> (r: String)
    ensures
        r@ == "act "@ + act_kind_name(k) + tail@,
{
    let mut s = "act ".to_owned();
    push_str(&mut s, k.as_str());
    push_str(&mut s, tail);
    s
}

fn single<C>(c: InputCommand<C>) -> (r: Result<Vec<InputCommand<C>>, String>)
    ensures
        r is Ok,
        r->Ok_0@ == seq![c],
{
    let mut v = Vec::new();
    v.push(c);
    assert(v@ =~= seq![c]);
    Ok(v)
}

pub open spec fn steps_view<C>(r: Result<Vec<InputCommand<C>>, String>) -> Result<Seq<InputCommand<C>>, Seq<char>> {
    match r {
        Ok(v) => Ok(v@),
        Err(e) => Err(e@),
    }
}

/// The commands a call sends, or the message it is refused with.
pub fn act_commands<C>(args: ActArgs<C>) -> (r: Result<Vec<InputCommand<C>>, String>)
    ensures
        steps_view(r) == act_steps(args),
{
    let ghost a = args;
    let ActArgs {
        page: _,
        kind,
        element_ref,
        text,
        value,
        fields,
        key,
        direction,
        amount,
        x,
        y,
        target_ref,
        start_x,
        start_y,
        end_x,
        end_y,
        button,
        click_count,
        clear,
        diff: _,
        max_chars: _,
    } = args;
    let options = ClickOptions { button, click_count };
    let clear: bool = match clear {
        Some(b) => b,
        None => false,
    };
    match kind {
        ActKind::Click => match element_ref {
            Some(r) => single(InputCommand::Click { element_ref: r, options }),
            None => Err(err_with_kind(kind, ": ref is required.")),
        },
        ActKind::ClickAt => match (x, y) {
            (Some(x), Some(y)) => single(InputCommand::ClickAt { x, y, options }),
            _ => Err(err_with_kind(kind, ": x and y are required.")),
        },
        ActKind::Type => match text {
            Some(t) => single(InputCommand::TypeText { text: t }),
            None => Err("act type: text is required.".to_owned()),
        },
        ActKind::TypeAt => match (x, y) {
            (Some(x), Some(y)) => match text {
                Some(t) => single(InputCommand::TypeAt { x, y, text: t, clear }),
                None => Err("act type_at: text is required.".to_owned()),
            },
            _ => Err(err_with_kind(kind, ": x and y are required.")),
        },
        ActKind::Fill => match fields {
            Some(fs) => Ok(take_fill_commands(fs, clear)),
            None => match (element_ref, value) {
                (Some(r), Some(v)) => single(InputCommand::Fill { element_ref: r, value: v, clear }),
                _ => Err("act fill: provide fields[] or both ref and value.".to_owned()),
            },
        },
        ActKind::Press => match key {
            Some(k) => single(InputCommand::Press { key: k }),
            None => Err("act press: key is required.".to_owned()),
        },
        ActKind::Hover => match element_ref {
            Some(r) => single(InputCommand::Hover { element_ref: r }),
            None => Err(err_with_kind(kind, ": ref is required.")),
        },
        ActKind::HoverAt => match (x, y) {
            (Some(x), Some(y)) => single(InputCommand::HoverAt { x, y }),
            _ => Err(err_with_kind(kind, ": x and y are required.")),
        },
        ActKind::Focus => match element_ref {
            Some(r) => single(InputCommand::Focus { element_ref: r }),
            None => Err(err_with_kind(kind, ": ref is required.")),
        },
        ActKind::Check => match element_ref {
            Some(r) => single(InputCommand::Check { element_ref: r }),
            None => Err(err_with_kind(kind, ": ref is required.")),
        },
        ActKind::Uncheck => match element_ref {
            Some(r) => single(InputCommand::Uncheck { element_ref: r }),
            None => Err(err_with_kind(kind, ": ref is required.")),
        },
        ActKind::Select => match (element_ref, value) {
            (Some(r), Some(v)) => single(InputCommand::SelectOption { element_ref: r, value: v }),
            _ => Err("act select: ref and value are required.".to_owned()),
        },
        ActKind::Scroll => single(
            InputCommand::Scroll { direction: scroll_direction(direction), amount, element_ref },
        ),
        ActKind::Drag => match (element_ref, target_ref) {
            (Some(r), Some(t)) => single(InputCommand::Drag { from: r, to: t }),
            _ => Err("act drag: ref and targetRef are required.".to_owned()),
        },
        ActKind::DragAt => match (start_x, start_y, end_x, end_y) {
            (Some(sx), Some(sy), Some(ex), Some(ey)) => single(
                InputCommand::DragAt { start_x: sx, start_y: sy, end_x: ex, end_y: ey },
            ),
            _ => Err("act drag_at: startX, startY, endX, and endY are required.".to_owned()),
        },
        ActKind::DialogAccept => single(InputCommand::HandleDialog { accept: true, prompt_text: text }),
        ActKind::DialogDismiss => single(InputCommand::HandleDialog { accept: false, prompt_text: None }),
    }
}

/// Plans a call to `act`: whether a pending dialog answers it first, the
/// commands it sends or the message it is refused with, whether the dialog
/// is cleared afterwards, how the diff is read back, and the reply.
pub fn plan_act<C>(args: ActArgs<C>) -> (r: ActPlan<C>)
    ensures
        r.page == args.page,
        r.kind == args.kind,
        r.checks_pending_dialog == !(args.kind is DialogAccept || args.kind is DialogDismiss),
        steps_view(r.steps) == act_steps(args),
        r.clears_dialog == (args.kind is DialogAccept || args.kind is DialogDismiss),
        r.diff == diff_choice(opt_view(args.diff)),
        r.reply@ == act_reply(args.kind),
{
    let page = args.page;
    let kind = args.kind;
    let dialog = kind.is_dialog();
    let diff = diff_request(&args.diff);
    let mut reply = "ok (".to_owned();
    push_str(&mut reply, kind.as_str());
    push_str(&mut reply, ")");
    let steps = act_commands(args);
    ActPlan { page, kind, checks_pending_dialog: !dialog, steps, clears_dialog: dialog, diff, reply }
}

/// Whatever `act_commands` (or `plan_act`) gives for `a`: its steps `r`.
pub open spec fn steps_of<C>(a: ActArgs<C>, r: Result<Vec<InputCommand<C>>, String>) -> bool {
    steps_view(r) == act_steps(a)
}

/// The commands of an act call put each argument where it belongs, where two
/// arguments of the same type could trade places: a drag takes the element
/// named by `ref` onto the element named by `targetRef`, and a coordinate
/// drag goes from the start point to the end point; a select and a single
/// fill put the value into the element named by `ref`; a click, type or
/// hover at a point uses `x` and `y` as given; accepting a dialog passes the
/// prompt text and dismissing passes none.
pub proof fn law_act_commands_keep_their_arguments_apart<C>(a: ActArgs<C>, r: Result<Vec<InputCommand<C>>, String>)
    requires
        steps_of(a, r),
    ensures
        a.kind is Drag && a.element_ref is Some && a.target_ref is Some ==> (r matches Ok(v) && v@ == seq![
            InputCommand::<C>::Drag { from: a.element_ref->Some_0, to: a.target_ref->Some_0 },
        ]),
        a.kind is DragAt && a.start_x is Some && a.start_y is Some && a.end_x is Some && a.end_y is Some ==> (r matches Ok(v)
            && v@ == seq![
            InputCommand::<C>::DragAt {
                start_x: a.start_x->Some_0,
                start_y: a.start_y->Some_0,
                end_x: a.end_x->Some_0,
                end_y: a.end_y->Some_0,
            },
        ]),
        a.kind is Select && a.element_ref is Some && a.value is Some ==> (r matches Ok(v) && v@ == seq![
            InputCommand::<C>::SelectOption { element_ref: a.element_ref->Some_0, value: a.value->Some_0 },
        ]),
        a.kind is Fill && a.fields is None && a.element_ref is Some && a.value is Some ==> (r matches Ok(v) && v@ == seq![
            InputCommand::<C>::Fill {
                element_ref: a.element_ref->Some_0,
                value: a.value->Some_0,
                clear: a.clear == Some(true),
            },
        ]),
        a.kind is Fill && a.fields is Some ==> (r matches Ok(v) && v@.len() == a.fields->Some_0@.len() && forall|i: int|
            0 <= i < v@.len() ==> #[trigger] v@[i] == InputCommand::<C>::Fill {
                element_ref: a.fields->Some_0@[i].element_ref,
                value: a.fields->Some_0@[i].value,
                clear: a.clear == Some(true),
            }),
        a.kind is Click && a.element_ref is Some ==> (r matches Ok(v) && v@ == seq![
            InputCommand::<C>::Click {
                element_ref: a.element_ref->Some_0,
                options: ClickOptions { button: a.button, click_count: a.click_count },
            },
        ]),
        a.kind is ClickAt && a.x is Some && a.y is Some ==> (r matches Ok(v) && v@ == seq![
            InputCommand::<C>::ClickAt {
                x: a.x->Some_0,
                y: a.y->Some_0,
                options: ClickOptions { button: a.button, click_count: a.click_count },
            },
        ]),
        a.kind is HoverAt && a.x is Some && a.y is Some ==> (r matches Ok(v) && v@ == seq![
            InputCommand::<C>::HoverAt { x: a.x->Some_0, y: a.y->Some_0 },
        ]),
        a.kind is TypeAt && a.x is Some && a.y is Some && a.text is Some ==> (r matches Ok(v) && v@ == seq![
            InputCommand::<C>::TypeAt { x: a.x->Some_0, y: a.y->Some_0, text: a.text->Some_0, clear: a.clear == Some(true) },
        ]),
        a.kind is DialogAccept ==> (r matches Ok(v) && v@ == seq![
            InputCommand::<C>::HandleDialog { accept: true, prompt_text: a.text },
        ]),
        a.kind is DialogDismiss ==> (r matches Ok(v) && v@ == seq![
            InputCommand::<C>::HandleDialog { accept: false, prompt_text: None },
        ]),
        a.kind is Drag && (a.element_ref is None || a.target_ref is None) ==> r is Err,
        a.kind is Type && a.text is Some ==> (r matches Ok(v) && v@ == seq![
            InputCommand::<C>::TypeText { text: a.text->Some_0 },
        ]),
        a.kind is Press && a.key is Some ==> (r matches Ok(v) && v@ == seq![InputCommand::<C>::Press { key: a.key->Some_0 }]),
        a.kind is Hover && a.element_ref is Some ==> (r matches Ok(v) && v@ == seq![
            InputCommand::<C>::Hover { element_ref: a.element_ref->Some_0 },
        ]),
        a.kind is Focus && a.element_ref is Some ==> (r matches Ok(v) && v@ == seq![
            InputCommand::<C>::Focus { element_ref: a.element_ref->Some_0 },
        ]),
        a.kind is Check && a.element_ref is Some ==> (r matches Ok(v) && v@ == seq![
            InputCommand::<C>::Check { element_ref: a.element_ref->Some_0 },
        ]),
        a.kind is Uncheck && a.element_ref is Some ==> (r matches Ok(v) && v@ == seq![
            InputCommand::<C>::Uncheck { element_ref: a.element_ref->Some_0 },
        ]),
        a.kind is Scroll ==> (r matches Ok(v) && v@ == seq![
            InputCommand::<C>::Scroll {
                direction: match a.direction {
                    Some(ActDirection::Up) => ScrollDirection::Up,
                    Some(ActDirection::Left) => ScrollDirection::Left,
                    Some(ActDirection::Right) => ScrollDirection::Right,
                    Some(ActDirection::Down) => ScrollDirection::Down,
                    None => ScrollDirection::Down,
                },
                amount: a.amount,
                element_ref: a.element_ref,
            },
        ]),
        (a.kind is Click || a.kind is Hover || a.kind is Focus || a.kind is Check || a.kind is Uncheck)
            && a.element_ref is None ==> r is Err,
        (a.kind is ClickAt || a.kind is HoverAt || a.kind is TypeAt) && (a.x is None || a.y is None) ==> r is Err,
{
    match r {
        Ok(v) => {
            if a.kind is Fill && a.fields is Some {
                assert(v@ == fill_commands::<C>(a.fields->Some_0@, a.clear == Some(true)));
            }
        },
        Err(_) => {},
    }
}

} // verus!
