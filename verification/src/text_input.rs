//! The accessibility of text inputs: the node that describes a field, the
//! text run that exposes its characters and words, and the handling of the
//! requests of assistive technologies.
use vstd::prelude::*;
use vstd::string::StringExecFns;
use vstd::string::StringSliceAdditionalSpecFns;
use vstd::utf8::{encode_utf8, is_char_boundary};
use crate::container::{copy_text, same_text};
use crate::node::{next_id, Action, ActionData, ActionRequest, Bounds, Node, Role, TextPosition, TextSelection};
use crate::text::{
    char_index_of_character_start, concat_all, lemma_encode_concat_all_take_bound, lemma_encode_utf8_nonempty,
    lemma_offset_of_position, lemma_prefix_sum_exact,
    byte_to_char_index, char_byte_lengths, char_index_at, extended_graphemes, grapheme_index_to_position,
    grapheme_lengths, insertion_byte, line_col_byte_offset, line_col_offset, line_lengths, lines_span,
    min, position_in, grapheme_offset, preedit_selection, prefix_sum, secure_text, text_with_preedit,
    word_start_indices, word_starts, Position, Preedit, lemma_prefix_sum_truncated_bound_all, fits_preedit,
};
use crate::tree::Tree;

verus! {

/// The possible status of a text input.
#[derive(Debug, Clone, Copy, PartialEq, Eq, Structural)]
pub enum Status {
    /// The text input can be interacted with.
    Active,
    /// The text input is being hovered.
    Hovered,
    /// The text input is focused.
    Focused {
        /// Whether the text input is hovered, while focused.
        is_hovered: bool,
    },
    /// The text input cannot be interacted with.
    Disabled,
}

/// Whether a text input is disabled: it has no input handler and is not
/// read-only.
pub open spec fn is_disabled(has_on_input: bool, is_read_only: bool) -> bool {
    !has_on_input && !is_read_only
}

/// The status of a text input: disabled first, then focused (noting whether
/// the cursor is over it), then hovered, else active.
pub fn status(has_on_input: bool, is_read_only: bool, is_focused: bool, is_hovered: bool) -> (r: Status)
    ensures
        r == if is_disabled(has_on_input, is_read_only) {
            Status::Disabled
        } else if is_focused {
            Status::Focused { is_hovered }
        } else if is_hovered {
            Status::Hovered
        } else {
            Status::Active
        },
{
    if !has_on_input && !is_read_only {
        Status::Disabled
    } else if is_focused {
        Status::Focused { is_hovered }
    } else if is_hovered {
        Status::Hovered
    } else {
        Status::Active
    }
}

/// What a text input does with its status after an event.
#[derive(Debug, Clone, Copy, PartialEq, Eq, Structural)]
pub enum StatusChange {
    /// A redraw is happening: the status is recorded (and the input method
    /// requested).
    Record,
    /// The status differs from the one last recorded: a redraw is
    /// requested.
    Redraw,
    /// Nothing.
    Keep,
}

/// Decides what a text input does with its status after an event: a
/// redraw event records it; any other event asks for a redraw when a
/// status was recorded and the new one differs from it.
pub fn status_change(is_redraw_event: bool, last_status: Option<Status>, status: Status) -> (r: StatusChange)
    ensures
        r == if is_redraw_event {
            StatusChange::Record
        } else if last_status matches Some(last) && last != status {
            StatusChange::Redraw
        } else {
            StatusChange::Keep
        },
{
    if is_redraw_event {
        StatusChange::Record
    } else {
        match last_status {
            Some(last) => if last != status {
                StatusChange::Redraw
            } else {
                StatusChange::Keep
            },
            None => StatusChange::Keep,
        }
    }
}

/// The handler of a text input that publishes its value after an edit.
#[derive(Debug, Clone, Copy, PartialEq, Eq, Structural)]
pub enum Handler {
    /// The input handler.
    Input,
    /// The paste handler.
    Paste,
}

/// A field that can be filled with text: what it holds and what it tells
/// assistive technologies, with the handler of new input.
pub struct TextInput<F> {
    /// The committed value.
    pub value: String,
    /// The hint shown when the value is empty.
    pub placeholder: String,
    /// Whether the value is hidden (a password).
    pub is_secure: bool,
    /// Whether the value can be selected and copied but not edited.
    pub is_read_only: bool,
    /// What produces a message when text is typed into the input; without
    /// it the input is disabled.
    pub on_input: Option<F>,
    /// What produces a message, in place of the input handler, when text
    /// is pasted into the input.
    pub on_paste: Option<F>,
    /// The accessible label, if any.
    pub accessible_label: Option<String>,
    /// The accessible description, if any.
    pub accessible_description: Option<String>,
    /// A value exposed in place of the text, if any.
    pub accessible_value: Option<String>,
}

impl<F> TextInput<F> {
    /// Creates a new [`TextInput`] with the given placeholder and its
    /// current value: not secure, editable, without an input handler (so
    /// disabled) and without accessible metadata.
    pub fn new(placeholder: &str, value: &str) -> (r: Self)
        ensures
            r.placeholder@ == placeholder@,
            r.value@ == value@,
            !r.is_secure,
            !r.is_read_only,
            r.on_input is None,
            r.on_paste is None,
            r.accessible_label is None,
            r.accessible_description is None,
            r.accessible_value is None,
    {
        TextInput {
            value: String::from_str(value),
            placeholder: String::from_str(placeholder),
            is_secure: false,
            is_read_only: false,
            on_input: None,
            on_paste: None,
            accessible_label: None,
            accessible_description: None,
            accessible_value: None,
        }
    }

    /// Converts the [`TextInput`] into a secure password input, or back.
    pub fn secure(self, is_secure: bool) -> (r: Self)
        ensures
            r == (TextInput { is_secure, ..self }),
    {
        TextInput { is_secure, ..self }
    }

    /// Sets whether the [`TextInput`] is read-only: it can still be
    /// focused, navigated, selected and copied, but its value cannot be
    /// edited.
    pub fn read_only(self, is_read_only: bool) -> (r: Self)
        ensures
            r == (TextInput { is_read_only, ..self }),
    {
        TextInput { is_read_only, ..self }
    }

    /// Sets what produces a message when text is typed into the
    /// [`TextInput`]; without it the input is disabled.
    pub fn on_input(self, on_input: F) -> (r: Self)
        ensures
            r == (TextInput { on_input: Some(on_input), ..self }),
    {
        TextInput { on_input: Some(on_input), ..self }
    }

    /// Sets what produces a message when text is typed into the
    /// [`TextInput`], if `Some`; with `None` the input is disabled.
    pub fn on_input_maybe(self, on_input: Option<F>) -> (r: Self)
        ensures
            r == (TextInput { on_input, ..self }),
    {
        TextInput { on_input, ..self }
    }

    /// Sets what produces a message when text is pasted into the
    /// [`TextInput`], in place of the input handler.
    pub fn on_paste(self, on_paste: F) -> (r: Self)
        ensures
            r == (TextInput { on_paste: Some(on_paste), ..self }),
    {
        TextInput { on_paste: Some(on_paste), ..self }
    }

    /// Sets what produces a message when text is pasted into the
    /// [`TextInput`], if `Some`.
    pub fn on_paste_maybe(self, on_paste: Option<F>) -> (r: Self)
        ensures
            r == (TextInput { on_paste, ..self }),
    {
        TextInput { on_paste, ..self }
    }

    /// Whether the editor of the [`TextInput`] takes edits: only when it
    /// has an input handler and is not read-only.
    pub fn takes_edits(&self) -> (r: bool)
        ensures
            r == (self.on_input is Some && !self.is_read_only),
    {
        self.on_input.is_some() && !self.is_read_only
    }

    /// Which handler publishes the value after an edit, `has_pasted`
    /// telling whether the edit pasted text: none when the input takes no
    /// edits; the paste handler for a paste, when there is one; else the
    /// input handler.
    pub fn edit_handler(&self, has_pasted: bool) -> (r: Option<Handler>)
        ensures
            r == if !(self.on_input is Some && !self.is_read_only) {
                None
            } else if has_pasted && self.on_paste is Some {
                Some(Handler::Paste)
            } else {
                Some(Handler::Input)
            },
    {
        if !self.takes_edits() {
            None
        } else if has_pasted && self.on_paste.is_some() {
            Some(Handler::Paste)
        } else {
            Some(Handler::Input)
        }
    }

    /// Sets the accessible label of the [`TextInput`].
    pub fn accessible_label(self, label: &str) -> (r: Self)
        ensures
            r.accessible_label matches Some(l) && l@ == label@,
            r == (TextInput { accessible_label: r.accessible_label, ..self }),
    {
        TextInput { accessible_label: Some(String::from_str(label)), ..self }
    }

    /// Sets the accessible description of the [`TextInput`].
    pub fn accessible_description(self, description: &str) -> (r: Self)
        ensures
            r.accessible_description matches Some(d) && d@ == description@,
            r == (TextInput { accessible_description: r.accessible_description, ..self }),
    {
        TextInput { accessible_description: Some(String::from_str(description)), ..self }
    }

    /// Overrides the accessible value of the [`TextInput`].
    pub fn accessible_value(self, value: &str) -> (r: Self)
        ensures
            r.accessible_value matches Some(v) && v@ == value@,
            r == (TextInput { accessible_value: r.accessible_value, ..self }),
    {
        TextInput { accessible_value: Some(String::from_str(value)), ..self }
    }
}

/// The state of the editor behind a text input.
pub struct Editor {
    /// The position of the caret.
    pub cursor: Position,
    /// The other end of the selection, if any.
    pub selection: Option<Position>,
    /// The text being composed by an input method, if any.
    pub preedit: Option<Preedit>,
    /// Whether the input has keyboard focus.
    pub is_focused: bool,
}

/// The grapheme-cluster index of a position in `value`.
pub open spec fn char_of(value: Seq<char>, p: Position) -> int {
    char_index_at(grapheme_lengths(value), line_col_offset(encode_utf8(value), p.line as int, p.index as int))
}

/// Whether a position can be turned into an offset without overflow.
pub open spec fn position_fits(value: Seq<char>, p: Position) -> bool {
    let ls = line_lengths(encode_utf8(value));
    p.line < ls.len() ==> lines_span(ls, p.line as int) + p.index <= usize::MAX
}

/// The caret, as a grapheme-cluster index into the committed value.
pub open spec fn caret<F>(field: TextInput<F>, editor: Editor) -> int {
    char_of(field.value@, editor.cursor)
}

/// The anchor of the selection, as a grapheme-cluster index into the
/// committed value: the other end of the selection, or the caret.
pub open spec fn anchor<F>(field: TextInput<F>, editor: Editor) -> int {
    match editor.selection {
        Some(p) => char_of(field.value@, p),
        None => caret(field, editor),
    }
}

/// Whether the editor holds composed text.
pub open spec fn composing(editor: Editor) -> bool {
    editor.preedit matches Some(p) && p.content@.len() > 0
}

/// The bytes of the text with the composed text inserted.
pub open spec fn composed_bytes<F>(field: TextInput<F>, editor: Editor) -> Seq<u8> {
    let bytes = encode_utf8(field.value@);
    if composing(editor) {
        let b = insertion_byte(field.value@, anchor(field, editor), caret(field, editor));
        bytes.take(b) + encode_utf8(editor.preedit->0.content@) + bytes.skip(b)
    } else {
        bytes
    }
}

/// The anchor and the caret of the selection within the composed text.
pub open spec fn composed_selection<F>(field: TextInput<F>, editor: Editor) -> (int, int) {
    if composing(editor) {
        let start = min(anchor(field, editor), caret(field, editor));
        let (s, e) = preedit_selection(editor.preedit->0);
        (start + s, start + e)
    } else {
        (anchor(field, editor), caret(field, editor))
    }
}

/// Whether `shown` is what the text run holds: the composed text, or, for a
/// secure input, one bullet per grapheme cluster of it.
pub open spec fn is_shown_text<F>(field: TextInput<F>, editor: Editor, shown: Seq<char>) -> bool {
    exists|t: Seq<char>|
        encode_utf8(t) == composed_bytes(field, editor) && if field.is_secure {
            shown == Seq::new(extended_graphemes(t).len(), |i: int| '\u{2022}')
        } else {
            shown == t
        }
}

/// The actions a text input supports: text selection unless it is
/// disabled; editing when it is editable and not read-only; and focus.
pub open spec fn input_actions<F>(field: TextInput<F>) -> Seq<Action> {
    let selection = if is_disabled(field.on_input is Some, field.is_read_only) {
        Seq::empty()
    } else {
        seq![Action::SetTextSelection]
    };
    let editing = if !field.is_read_only && field.on_input is Some {
        seq![Action::ReplaceSelectedText, Action::SetValue]
    } else {
        Seq::empty()
    };
    selection + editing + seq![Action::Focus]
}

/// The value a text input exposes: the text it shows, unless an accessible
/// value replaces it (which a secure input never lets happen).
pub open spec fn exposed_text<F>(field: TextInput<F>, shown: Seq<char>) -> Seq<char> {
    if field.is_secure {
        shown
    } else {
        match field.accessible_value {
            Some(v) => v@,
            None => shown,
        }
    }
}

fn exposed_value<F>(field: &TextInput<F>, text: &String) -> (r: String)
    ensures
        r@ == exposed_text(*field, text@),
{
    if field.is_secure {
        text.clone()
    } else {
        match &field.accessible_value {
            Some(v) => v.clone(),
            None => text.clone(),
        }
    }
}

/// Whether `n` is the node of the text input, whose text run is `run` and
/// shows `shown`.
pub open spec fn is_input_node<F>(n: Node, field: TextInput<F>, editor: Editor, run: u64, shown: Seq<char>) -> bool {
    let exposed = exposed_text(field, shown);
    let (a, f) = composed_selection(field, editor);
    &&& n.role == if field.is_secure {
        Role::PasswordInput
    } else {
        Role::TextInput
    }
    &&& n.bounds is Widget
    &&& same_text(n.label, field.accessible_label)
    &&& same_text(n.description, field.accessible_description)
    &&& if exposed.len() == 0 {
        &&& n.value is None
        &&& if field.placeholder@.len() > 0 {
            n.placeholder matches Some(p) && p@ == field.placeholder@
        } else {
            n.placeholder is None
        }
    } else {
        &&& n.value matches Some(v) && v@ == exposed
        &&& n.placeholder is None
    }
    &&& n.text_input_marked == composing(editor)
    &&& n.children@ == seq![run]
    &&& n.text_selection == Some(
        TextSelection {
            anchor: TextPosition { node: run, character_index: a as usize },
            focus: TextPosition { node: run, character_index: f as usize },
        },
    )
    &&& n.disabled == is_disabled(field.on_input is Some, field.is_read_only)
    &&& n.read_only == field.is_read_only
    &&& n.actions@ == input_actions(field)
    &&& n.child_actions@.len() == 0
    &&& n.controls@.len() == 0
    &&& !n.multiselectable
    &&& n.selected is None
    &&& n.expanded is None
    &&& n.has_popup is None
    &&& n.row_index is None
    &&& n.column_index is None
    &&& n.row_span is None
    &&& n.column_span is None
    &&& n.row_count is None
    &&& n.column_count is None
    &&& n.sort_direction is None
    &&& n.character_lengths@.len() == 0
    &&& n.word_starts@.len() == 0
}

/// Whether `n` is the text run showing `shown`, with the byte length of
/// each of its grapheme clusters and the clusters that start words.
pub open spec fn is_text_run_node(n: Node, shown: Seq<char>) -> bool {
    &&& n.role == Role::TextRun
    &&& n.bounds is Unset
    &&& n.value matches Some(v) && v@ == shown
    &&& n.character_lengths@ == grapheme_lengths(shown)
    &&& n.word_starts@ == word_starts(extended_graphemes(shown))
    &&& n.label is None
    &&& n.description is None
    &&& n.placeholder is None
    &&& n.children@.len() == 0
    &&& n.controls@.len() == 0
    &&& n.actions@.len() == 0
    &&& n.child_actions@.len() == 0
    &&& !n.disabled
    &&& !n.read_only
    &&& !n.text_input_marked
    &&& !n.multiselectable
    &&& n.selected is None
    &&& n.expanded is None
    &&& n.has_popup is None
    &&& n.row_index is None
    &&& n.column_index is None
    &&& n.row_span is None
    &&& n.column_span is None
    &&& n.row_count is None
    &&& n.column_count is None
    &&& n.sort_direction is None
    &&& n.text_selection is None
}

/// Whether the selection of the editor can be exposed without overflow, and
/// the composed text inserted at a character boundary.
pub open spec fn exposable<F>(field: TextInput<F>, editor: Editor) -> bool {
    &&& position_fits(field.value@, editor.cursor)
    &&& editor.selection matches Some(p) ==> position_fits(field.value@, p)
    &&& composing(editor) ==> {
        &&& is_char_boundary(
            encode_utf8(field.value@),
            insertion_byte(field.value@, anchor(field, editor), caret(field, editor)),
        )
        &&& min(anchor(field, editor), caret(field, editor)) + grapheme_lengths(
            editor.preedit->0.content@,
        ).len() <= usize::MAX
    }
}

fn char_index_of(value: &str, lengths: &Vec<u8>, p: Position) -> (r: usize)
    requires
        lengths@ == grapheme_lengths(value@),
        prefix_sum(lengths@, lengths@.len() as int) <= usize::MAX,
        position_fits(value@, p),
        encode_utf8(value@).len() < usize::MAX,
    ensures
        r == char_of(value@, p),
{
    let offset = line_col_byte_offset(value, p.line, p.index);
    byte_to_char_index(lengths.as_slice(), offset)
}

/// Computes the text a text input shows, and the anchor and the caret of
/// its selection within that text, counted in grapheme clusters.
fn shown_text<F>(field: &TextInput<F>, editor: &Editor) -> (r: (String, usize, usize))
    requires
        encode_utf8(field.value@).len() < usize::MAX,
        exposable(*field, *editor),
    ensures
        is_shown_text(*field, *editor, r.0@),
        (r.1 as int, r.2 as int) == composed_selection(*field, *editor),
{
    let value = field.value.as_str();
    let committed_lengths = char_byte_lengths(value);
    proof {
        lemma_prefix_sum_truncated_bound_all(value@);
    }
    let cursor_char = char_index_of(value, &committed_lengths, editor.cursor);
    let sel_char = match editor.selection {
        Some(p) => char_index_of(value, &committed_lengths, p),
        None => cursor_char,
    };
    let committed = String::from_str(value);
    let (composed, sel_char, cursor_char) = text_with_preedit(
        committed,
        editor.preedit.as_ref(),
        sel_char,
        cursor_char,
    );
    let ghost composed_chars = composed@;
    assert(encode_utf8(composed_chars) == composed_bytes(*field, *editor));
    let text = if field.is_secure {
        secure_text(composed.as_str())
    } else {
        composed
    };
    assert(is_shown_text(*field, *editor, text@));
    (text, sel_char, cursor_char)
}

/// The actions of a text input, in the order it lists them.
fn input_action_list<F>(field: &TextInput<F>) -> (r: Vec<Action>)
    ensures
        r@ == input_actions(*field),
{
    let mut actions: Vec<Action> = Vec::new();
    if field.on_input.is_some() || field.is_read_only {
        actions.push(Action::SetTextSelection);
    }
    if !field.is_read_only && field.on_input.is_some() {
        actions.push(Action::ReplaceSelectedText);
        actions.push(Action::SetValue);
    }
    actions.push(Action::Focus);
    proof {
        assert(actions@ =~= input_actions(*field));
    }
    actions
}

/// The value and the placeholder of a text input exposing `exposed`: the
/// value when it is not empty, else the placeholder when that is not empty.
fn value_and_placeholder(placeholder: &String, exposed: String) -> (r: (Option<String>, Option<String>))
    ensures
        if exposed@.len() == 0 {
            &&& r.0 is None
            &&& if placeholder@.len() > 0 {
                r.1 matches Some(p) && p@ == placeholder@
            } else {
                r.1 is None
            }
        } else {
            &&& r.0 matches Some(v) && v@ == exposed@
            &&& r.1 is None
        },
{
    if exposed.as_str().is_empty() {
        if placeholder.as_str().is_empty() {
            (None, None)
        } else {
            (None, Some(placeholder.clone()))
        }
    } else {
        (Some(exposed), None)
    }
}

/// Builds the node of a text input whose text run `run` shows `text`, with
/// the selection from `anchor` to `caret`.
fn input_node<F>(field: &TextInput<F>, editor: &Editor, run: u64, text: &String, anchor: usize, caret: usize) -> (r:
    Node)
    requires
        (anchor as int, caret as int) == composed_selection(*field, *editor),
    ensures
        is_input_node(r, *field, *editor, run, text@),
{
    let role = if field.is_secure {
        Role::PasswordInput
    } else {
        Role::TextInput
    };
    let composing = match &editor.preedit {
        Some(p) => !p.content.as_str().is_empty(),
        None => false,
    };
    let (value, placeholder) = value_and_placeholder(&field.placeholder, exposed_value(field, text));
    let mut children: Vec<u64> = Vec::new();
    children.push(run);
    proof {
        assert(children@ =~= seq![run]);
    }
    Node {
        role,
        bounds: Bounds::Widget,
        label: copy_text(&field.accessible_label),
        description: copy_text(&field.accessible_description),
        value,
        placeholder,
        children,
        controls: Vec::new(),
        actions: input_action_list(field),
        child_actions: Vec::new(),
        disabled: !field.on_input.is_some() && !field.is_read_only,
        read_only: field.is_read_only,
        text_input_marked: composing,
        multiselectable: false,
        selected: None,
        expanded: None,
        has_popup: None,
        row_index: None,
        column_index: None,
        row_span: None,
        column_span: None,
        row_count: None,
        column_count: None,
        sort_direction: None,
        text_selection: Some(
            TextSelection {
                anchor: TextPosition { node: run, character_index: anchor },
                focus: TextPosition { node: run, character_index: caret },
            },
        ),
        character_lengths: Vec::new(),
        word_starts: Vec::new(),
    }
}

/// Builds the text run node showing `text`.
fn text_run_node(text: &String) -> (r: Node)
    ensures
        is_text_run_node(r, text@),
{
    let character_lengths = char_byte_lengths(text.as_str());
    let word_starts = word_start_indices(text.as_str());
    let mut text_run = Node::new(Role::TextRun);
    text_run.value = Some(text.clone());
    text_run.character_lengths = character_lengths;
    text_run.word_starts = word_starts;
    text_run
}

/// Whether building the nodes of a text input took its state tree, the
/// nodes and the counter from `tree`, `nodes` and `counter` to `tree2`,
/// `nodes2` and `counter2` and answered `r`: the input's node (see
/// [`is_input_node`]) and its text run's (see [`is_text_run_node`]) take the
/// next two identifiers; the input's identifier is recorded in its state
/// tree, which is marked focused when the editor has focus.
pub open spec fn is_input_accessibility<S, F>(
    field: TextInput<F>,
    editor: Editor,
    tree: Tree<S>,
    tree2: Tree<S>,
    nodes: Seq<(u64, Node)>,
    nodes2: Seq<(u64, Node)>,
    counter: u64,
    counter2: u64,
    r: (Option<u64>, u64),
) -> bool {
    &&& r.0 == Some(counter)
    &&& r.1 == counter + 1
    &&& counter2 == counter + 2
    &&& nodes2.len() == nodes.len() + 2
    &&& nodes2.take(nodes.len() as int) == nodes
    &&& nodes2[nodes.len() as int].0 == counter
    &&& nodes2[nodes.len() + 1int].0 == counter + 1
    &&& exists|shown: Seq<char>|
        {
            &&& is_shown_text(field, editor, shown)
            &&& is_input_node(nodes2[nodes.len() as int].1, field, editor, (counter + 1) as u64, shown)
            &&& is_text_run_node(nodes2[nodes.len() + 1int].1, shown)
        }
    &&& tree2.accesskit_node_id == Some(counter)
    &&& tree2.accesskit_focused == (tree.accesskit_focused || editor.is_focused)
    &&& tree2.tag == tree.tag
    &&& tree2.state == tree.state
    &&& tree2.children == tree.children
}

/// Builds the accessibility nodes of a text input: the input itself (see
/// [`is_input_node`]) and its text run (see [`is_text_run_node`]), which
/// take the next two identifiers.
///
/// The input's identifier is recorded in its state tree, which is marked
/// focused when the editor has focus. Returns the input's identifier and
/// that of its text run.
pub fn accessibility<S, F>(
    field: &TextInput<F>,
    editor: &Editor,
    tree: &mut Tree<S>,
    nodes: &mut Vec<(u64, Node)>,
    id_counter: &mut u64,
) -> (r: (Option<u64>, u64))
    requires
        *old(id_counter) + 2 <= u64::MAX,
        encode_utf8(field.value@).len() < usize::MAX,
        exposable(*field, *editor),
    ensures
        is_input_accessibility(
            *field,
            *editor,
            *old(tree),
            *final(tree),
            old(nodes)@,
            final(nodes)@,
            *old(id_counter),
            *final(id_counter),
            r,
        ),
{
    let id = next_id(id_counter);
    tree.set_accesskit_node_id(id);
    let (text, anchor, caret) = shown_text(field, editor);
    let text_run_id = next_id(id_counter);
    let builder = input_node(field, editor, text_run_id, &text, anchor, caret);
    let text_run = text_run_node(&text);
    if editor.is_focused {
        tree.set_accesskit_focused(true);
    }
    let ghost shown = text@;
    nodes.push((id, builder));
    nodes.push((text_run_id, text_run));
    proof {
        assert(nodes@.take(old(nodes)@.len() as int) =~= old(nodes)@);
        assert(is_shown_text(*field, *editor, shown));
    }
    (Some(id), text_run_id)
}

/// What a text input does with an action request.
#[derive(Debug)]
pub enum Request {
    /// Nothing.
    Ignore,
    /// The input loses focus.
    Unfocus,
    /// The input publishes the given value as new input (and asks for a
    /// redraw).
    Input(String),
    /// The input selects from `start` to `end` (and asks for a redraw).
    Select {
        /// Where the selection starts: at its focus.
        start: Position,
        /// Where the selection ends: at its anchor.
        end: Position,
    },
    /// The input takes focus (and asks for a redraw).
    Focus,
}

/// Builds the accessibility nodes of a text input as [`accessibility`]
/// does, when the text being composed fits into its value (see
/// [`exposable`]); `None`, with nothing changed, when it does not.
pub fn checked_accessibility<S, F>(
    field: &TextInput<F>,
    editor: &Editor,
    tree: &mut Tree<S>,
    nodes: &mut Vec<(u64, Node)>,
    id_counter: &mut u64,
) -> (r: Option<(Option<u64>, u64)>)
    requires
        *old(id_counter) + 2 <= u64::MAX,
        encode_utf8(field.value@).len() < usize::MAX,
        position_fits(field.value@, editor.cursor),
        editor.selection matches Some(p) ==> position_fits(field.value@, p),
    ensures
        r is Some <==> exposable(*field, *editor),
        r matches Some(x) ==> is_input_accessibility(
            *field,
            *editor,
            *old(tree),
            *final(tree),
            old(nodes)@,
            final(nodes)@,
            *old(id_counter),
            *final(id_counter),
            x,
        ),
        r is None ==> *final(tree) == *old(tree) && final(nodes)@ == old(nodes)@ && *final(id_counter)
            == *old(id_counter),
{
    let value = field.value.as_str();
    let lengths = char_byte_lengths(value);
    proof {
        lemma_prefix_sum_truncated_bound_all(value@);
    }
    let caret = char_index_of(value, &lengths, editor.cursor);
    let anchor = match editor.selection {
        Some(p) => char_index_of(value, &lengths, p),
        None => caret,
    };
    if !fits_preedit(value, editor.preedit.as_ref(), anchor, caret) {
        return None;
    }
    Some(accessibility(field, editor, tree, nodes, id_counter))
}

/// The position of the selection end at cluster `index` of `value`, once
/// clamped to the number of clusters.
pub open spec fn selection_position(value: Seq<char>, index: usize) -> Position {
    let count = grapheme_lengths(value).len() as int;
    position_in(encode_utf8(value), grapheme_offset(value, min(index as int, count)), 0, 0)
}

/// Decides what a text input does with an action request.
///
/// A request for another node only makes the input lose focus, when it is
/// a focus request. A request to set or replace the value of an editable
/// input publishes the value it carries. A text selection request, on an
/// input that is not disabled, selects the range it names (clamped to the
/// text) when it targets the input's text run `text_run` and nothing is
/// being composed (`composing`). A focus request gives the input focus.
pub fn accessibility_action<S, F>(
    field: &TextInput<F>,
    tree: &Tree<S>,
    request: &ActionRequest,
    composing: bool,
    text_run: Option<u64>,
) -> (r: Request)
    ensures
        !tree.has_node_id(request.target_node) ==> if request.action == Action::Focus {
            r is Unfocus
        } else {
            r is Ignore
        },
        tree.has_node_id(request.target_node) ==> if (request.action == Action::ReplaceSelectedText
            || request.action == Action::SetValue) && !field.is_read_only {
            match request.data {
                Some(ActionData::Value(v)) => if field.on_input is Some {
                    r matches Request::Input(w) && w@ == v@
                } else {
                    r is Ignore
                },
                _ => r is Ignore,
            }
        } else if request.action == Action::SetTextSelection && (field.on_input is Some
            || field.is_read_only) {
            match (text_run, request.data) {
                (Some(run), Some(ActionData::SetTextSelection(sel))) => if !composing
                    && sel.anchor.node == run && sel.focus.node == run {
                    r == Request::Select {
                        start: selection_position(field.value@, sel.focus.character_index),
                        end: selection_position(field.value@, sel.anchor.character_index),
                    }
                } else {
                    r is Ignore
                },
                _ => r is Ignore,
            }
        } else if request.action == Action::Focus {
            r is Focus
        } else {
            r is Ignore
        },
{
    if !tree.owns_accesskit_node_id(request.target_node) {
        if request.action == Action::Focus {
            return Request::Unfocus;
        }
        return Request::Ignore;
    }
    if (request.action == Action::ReplaceSelectedText || request.action == Action::SetValue)
        && !field.is_read_only {
        if let Some(ActionData::Value(value)) = &request.data {
            if field.on_input.is_some() {
                return Request::Input(value.clone());
            }
        }
        Request::Ignore
    } else if request.action == Action::SetTextSelection && (field.on_input.is_some()
        || field.is_read_only) {
        let selection = match &request.data {
            Some(ActionData::SetTextSelection(selection)) => selection,
            _ => {
                return Request::Ignore;
            },
        };
        if composing {
            return Request::Ignore;
        }
        let run = match text_run {
            Some(run) => run,
            None => {
                return Request::Ignore;
            },
        };
        if selection.anchor.node != run || selection.focus.node != run {
            return Request::Ignore;
        }
        let value = field.value.as_str();
        let length = char_byte_lengths(value).len();
        let anchor = if selection.anchor.character_index < length {
            selection.anchor.character_index
        } else {
            length
        };
        let focus = if selection.focus.character_index < length {
            selection.focus.character_index
        } else {
            length
        };
        Request::Select {
            start: grapheme_index_to_position(value, focus),
            end: grapheme_index_to_position(value, anchor),
        }
    } else if request.action == Action::Focus {
        Request::Focus
    } else {
        Request::Ignore
    }
}

/// Selecting the grapheme cluster at `index` of a text input's value (see
/// [`accessibility_action`]) and then reading the caret back (see
/// [`accessibility`]) gives the same index, clamped to the number of
/// clusters: for a value whose clusters make it up, are not empty and are
/// shorter than 256 bytes, without carriage returns. The position selected
/// can always be read back without overflow.
pub proof fn selection_reads_back(value: Seq<char>, index: usize)
    requires
        concat_all(extended_graphemes(value)) == value,
        forall|i: int|
            0 <= i < extended_graphemes(value).len() ==> (#[trigger] extended_graphemes(value)[i]).len() > 0,
        forall|i: int|
            0 <= i < extended_graphemes(value).len() ==> encode_utf8(#[trigger] extended_graphemes(value)[i]).len()
                < 256,
        forall|i: int| 0 <= i < encode_utf8(value).len() ==> encode_utf8(value)[i] != 13u8,
        encode_utf8(value).len() < usize::MAX,
    ensures
        char_of(value, selection_position(value, index)) == min(index as int, grapheme_lengths(value).len() as int),
        position_fits(value, selection_position(value, index)),
{
    let gs = extended_graphemes(value);
    let lens = grapheme_lengths(value);
    let m = min(index as int, gs.len() as int);
    let offset = grapheme_offset(value, index as int);
    lemma_prefix_sum_exact(gs, m);
    lemma_encode_concat_all_take_bound(gs, m);
    assert(gs.take(gs.len() as int) =~= gs);
    lemma_offset_of_position(encode_utf8(value), offset);
    assert forall|c: int| 0 <= c < lens.len() implies lens[c] > 0 by {
        lemma_encode_utf8_nonempty(gs[c]);
        let n: usize = encode_utf8(gs[c]).len() as usize;
        assert(0 < n < 256 ==> (n as u8) > 0) by (bit_vector);
    }
    char_index_of_character_start(lens, m);
}

/// A password input exposes nothing of its text but one bullet per
/// grapheme cluster, whatever accessible value it was given.
pub proof fn secure_input_exposes_only_bullets<F>(field: TextInput<F>, editor: Editor, shown: Seq<char>)
    requires
        field.is_secure,
        is_shown_text(field, editor, shown),
    ensures
        forall|i: int| 0 <= i < exposed_text(field, shown).len() ==> exposed_text(field, shown)[i] == '\u{2022}',
{
}

/// The actions a text input offers: selection exactly when it is not
/// disabled (it has an input handler or is read-only), editing exactly when
/// it has a handler and is not read-only, and focus always.
proof fn lemma_input_actions<F>(field: TextInput<F>)
    ensures
        input_actions(field).contains(Action::SetTextSelection) <==> (field.on_input is Some || field.is_read_only),
        input_actions(field).contains(Action::SetValue) <==> (field.on_input is Some && !field.is_read_only),
        input_actions(field).contains(Action::ReplaceSelectedText) <==> (field.on_input is Some
            && !field.is_read_only),
        input_actions(field).contains(Action::Focus),
{
    let acts = input_actions(field);
    let editable = field.on_input is Some && !field.is_read_only;
    let selectable = field.on_input is Some || field.is_read_only;
    let selection = if selectable {
        seq![Action::SetTextSelection]
    } else {
        Seq::<Action>::empty()
    };
    let editing = if editable {
        seq![Action::ReplaceSelectedText, Action::SetValue]
    } else {
        Seq::<Action>::empty()
    };
    assert(acts == selection + editing + seq![Action::Focus]);
    assert(acts[acts.len() - 1] == Action::Focus);
    if selectable {
        assert(acts[0] == Action::SetTextSelection);
    } else {
        assert(acts =~= seq![Action::Focus]);
    }
    if editable {
        assert(acts[acts.len() - 2] == Action::SetValue);
        assert(acts[acts.len() - 3] == Action::ReplaceSelectedText);
    } else {
        assert(acts =~= selection + seq![Action::Focus]);
        assert forall|k: int| 0 <= k < acts.len() implies acts[k] != Action::SetValue && acts[k]
            != Action::ReplaceSelectedText by {}
    }
}

/// The node of a text input is disabled exactly when the input has no
/// input handler and is not read-only; it can be selected exactly when it is
/// not disabled, edited exactly when it has a handler and is not read-only,
/// and always focused. So a read-only input without a handler is neither
/// disabled nor unselectable.
pub proof fn input_node_disabled_only_without_handler_and_editing<F>(
    n: Node,
    field: TextInput<F>,
    editor: Editor,
    run: u64,
    shown: Seq<char>,
)
    requires
        is_input_node(n, field, editor, run, shown),
    ensures
        n.disabled <==> (field.on_input is None && !field.is_read_only),
        n.read_only == field.is_read_only,
        n.actions@.contains(Action::SetTextSelection) <==> !n.disabled,
        n.actions@.contains(Action::SetValue) <==> (field.on_input is Some && !field.is_read_only),
        n.actions@.contains(Action::ReplaceSelectedText) <==> (field.on_input is Some && !field.is_read_only),
        n.actions@.contains(Action::Focus),
{
    assert(n.disabled == is_disabled(field.on_input is Some, field.is_read_only));
    assert(n.actions@ == input_actions(field));
    lemma_input_actions(field);
}

} // verus!
