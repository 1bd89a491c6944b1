//! Accessibility nodes, as the widgets describe themselves to assistive
//! technologies, and the requests that assistive technologies send back.
use vstd::prelude::*;
use crate::table::SortDirection;

verus! {

/// The role of a node: what kind of user interface element it stands for.
#[derive(Debug, Clone, Copy, PartialEq, Eq, Structural)]
pub enum Role {
    /// A role this library does not tell apart.
    Unknown,
    /// The role of a text run.
    TextRun,
    /// The role of a cell.
    Cell,
    /// The role of a label.
    Label,
    /// The role of an image.
    Image,
    /// The role of a link.
    Link,
    /// The role of a row.
    Row,
    /// The role of a list item.
    ListItem,
    /// The role of a list marker.
    ListMarker,
    /// The role of a tree item.
    TreeItem,
    /// The role of a list box option.
    ListBoxOption,
    /// The role of a menu item.
    MenuItem,
    /// The role of a menu list option.
    MenuListOption,
    /// The role of a paragraph.
    Paragraph,
    /// The role of a generic container.
    GenericContainer,
    /// The role of a check box.
    CheckBox,
    /// The role of a radio button.
    RadioButton,
    /// The role of a text input.
    TextInput,
    /// The role of a button.
    Button,
    /// The role of a default button.
    DefaultButton,
    /// The role of a pane.
    Pane,
    /// The role of a row header.
    RowHeader,
    /// The role of a column header.
    ColumnHeader,
    /// The role of a row group.
    RowGroup,
    /// The role of a list.
    List,
    /// The role of a table.
    Table,
    /// The role of a layout table cell.
    LayoutTableCell,
    /// The role of a layout table row.
    LayoutTableRow,
    /// The role of a layout table.
    LayoutTable,
    /// The role of a switch.
    Switch,
    /// The role of a menu.
    Menu,
    /// The role of a multiline text input.
    MultilineTextInput,
    /// The role of a search input.
    SearchInput,
    /// The role of a date input.
    DateInput,
    /// The role of a date time input.
    DateTimeInput,
    /// The role of a week input.
    WeekInput,
    /// The role of a month input.
    MonthInput,
    /// The role of a time input.
    TimeInput,
    /// The role of an email input.
    EmailInput,
    /// The role of a number input.
    NumberInput,
    /// The role of a password input.
    PasswordInput,
    /// The role of a phone number input.
    PhoneNumberInput,
    /// The role of an url input.
    UrlInput,
    /// The role of an abbr.
    Abbr,
    /// The role of an alert.
    Alert,
    /// The role of an alert dialog.
    AlertDialog,
    /// The role of an application.
    Application,
    /// The role of an article.
    Article,
    /// The role of an audio.
    Audio,
    /// The role of a banner.
    Banner,
    /// The role of a blockquote.
    Blockquote,
    /// The role of a canvas.
    Canvas,
    /// The role of a caption.
    Caption,
    /// The role of a caret.
    Caret,
    /// The role of a code.
    Code,
    /// The role of a color well.
    ColorWell,
    /// The role of a combo box.
    ComboBox,
    /// The role of an editable combo box.
    EditableComboBox,
    /// The role of a complementary.
    Complementary,
    /// The role of a comment.
    Comment,
    /// The role of a content deletion.
    ContentDeletion,
    /// The role of a content insertion.
    ContentInsertion,
    /// The role of a content info.
    ContentInfo,
    /// The role of a definition.
    Definition,
    /// The role of a description list.
    DescriptionList,
    /// The role of a details.
    Details,
    /// The role of a dialog.
    Dialog,
    /// The role of a disclosure triangle.
    DisclosureTriangle,
    /// The role of a document.
    Document,
    /// The role of an embedded object.
    EmbeddedObject,
    /// The role of an emphasis.
    Emphasis,
    /// The role of a feed.
    Feed,
    /// The role of a figure caption.
    FigureCaption,
    /// The role of a figure.
    Figure,
    /// The role of a footer.
    Footer,
    /// The role of a form.
    Form,
    /// The role of a grid.
    Grid,
    /// The role of a grid cell.
    GridCell,
    /// The role of a group.
    Group,
    /// The role of a header.
    Header,
    /// The role of a heading.
    Heading,
    /// The role of an iframe.
    Iframe,
    /// The role of an iframe presentational.
    IframePresentational,
    /// The role of an ime candidate.
    ImeCandidate,
    /// The role of a keyboard.
    Keyboard,
    /// The role of a legend.
    Legend,
    /// The role of a line break.
    LineBreak,
    /// The role of a list box.
    ListBox,
    /// The role of a log.
    Log,
    /// The role of a main.
    Main,
    /// The role of a mark.
    Mark,
    /// The role of a marquee.
    Marquee,
    /// The role of a math.
    Math,
    /// The role of a menu bar.
    MenuBar,
    /// The role of a menu item check box.
    MenuItemCheckBox,
    /// The role of a menu item radio.
    MenuItemRadio,
    /// The role of a menu list popup.
    MenuListPopup,
    /// The role of a meter.
    Meter,
    /// The role of a navigation.
    Navigation,
    /// The role of a note.
    Note,
    /// The role of a plugin object.
    PluginObject,
    /// The role of a progress indicator.
    ProgressIndicator,
    /// The role of a radio group.
    RadioGroup,
    /// The role of a region.
    Region,
    /// The role of a root web area.
    RootWebArea,
    /// The role of a ruby.
    Ruby,
    /// The role of a ruby annotation.
    RubyAnnotation,
    /// The role of a scroll bar.
    ScrollBar,
    /// The role of a scroll view.
    ScrollView,
    /// The role of a search.
    Search,
    /// The role of a section.
    Section,
    /// The role of a section footer.
    SectionFooter,
    /// The role of a section header.
    SectionHeader,
    /// The role of a slider.
    Slider,
    /// The role of a spin button.
    SpinButton,
    /// The role of a splitter.
    Splitter,
    /// The role of a status.
    Status,
    /// The role of a strong.
    Strong,
    /// The role of a suggestion.
    Suggestion,
    /// The role of a svg root.
    SvgRoot,
    /// The role of a tab.
    Tab,
    /// The role of a tab list.
    TabList,
    /// The role of a tab panel.
    TabPanel,
    /// The role of a term.
    Term,
    /// The role of a time.
    Time,
    /// The role of a timer.
    Timer,
    /// The role of a title bar.
    TitleBar,
    /// The role of a toolbar.
    Toolbar,
    /// The role of a tooltip.
    Tooltip,
    /// The role of a tree.
    Tree,
    /// The role of a tree grid.
    TreeGrid,
    /// The role of a video.
    Video,
    /// The role of a web view.
    WebView,
    /// The role of a window.
    Window,
    /// The role of a pdf actionable highlight.
    PdfActionableHighlight,
    /// The role of a pdf root.
    PdfRoot,
    /// The role of a graphics document.
    GraphicsDocument,
    /// The role of a graphics object.
    GraphicsObject,
    /// The role of a graphics symbol.
    GraphicsSymbol,
    /// The role of a doc abstract.
    DocAbstract,
    /// The role of a doc acknowledgements.
    DocAcknowledgements,
    /// The role of a doc afterword.
    DocAfterword,
    /// The role of a doc appendix.
    DocAppendix,
    /// The role of a doc back link.
    DocBackLink,
    /// The role of a doc biblio entry.
    DocBiblioEntry,
    /// The role of a doc bibliography.
    DocBibliography,
    /// The role of a doc biblio ref.
    DocBiblioRef,
    /// The role of a doc chapter.
    DocChapter,
    /// The role of a doc colophon.
    DocColophon,
    /// The role of a doc conclusion.
    DocConclusion,
    /// The role of a doc cover.
    DocCover,
    /// The role of a doc credit.
    DocCredit,
    /// The role of a doc credits.
    DocCredits,
    /// The role of a doc dedication.
    DocDedication,
    /// The role of a doc endnote.
    DocEndnote,
    /// The role of a doc endnotes.
    DocEndnotes,
    /// The role of a doc epigraph.
    DocEpigraph,
    /// The role of a doc epilogue.
    DocEpilogue,
    /// The role of a doc errata.
    DocErrata,
    /// The role of a doc example.
    DocExample,
    /// The role of a doc footnote.
    DocFootnote,
    /// The role of a doc foreword.
    DocForeword,
    /// The role of a doc glossary.
    DocGlossary,
    /// The role of a doc gloss ref.
    DocGlossRef,
    /// The role of a doc index.
    DocIndex,
    /// The role of a doc introduction.
    DocIntroduction,
    /// The role of a doc note ref.
    DocNoteRef,
    /// The role of a doc notice.
    DocNotice,
    /// The role of a doc page break.
    DocPageBreak,
    /// The role of a doc page footer.
    DocPageFooter,
    /// The role of a doc page header.
    DocPageHeader,
    /// The role of a doc page list.
    DocPageList,
    /// The role of a doc part.
    DocPart,
    /// The role of a doc preface.
    DocPreface,
    /// The role of a doc prologue.
    DocPrologue,
    /// The role of a doc pullquote.
    DocPullquote,
    /// The role of a doc qna.
    DocQna,
    /// The role of a doc subtitle.
    DocSubtitle,
    /// The role of a doc tip.
    DocTip,
    /// The role of a doc toc.
    DocToc,
    /// The role of a list grid.
    ListGrid,
    /// The role of a terminal.
    Terminal,
}

/// An action that an assistive technology may request of a node.
#[derive(Debug, Clone, Copy, PartialEq, Eq, Structural)]
pub enum Action {
    /// Do the equivalent of a single click or tap.
    Click,
    /// The focus action.
    Focus,
    /// The blur action.
    Blur,
    /// The collapse action.
    Collapse,
    /// The expand action.
    Expand,
    /// Perform a custom action, named by the request's data.
    CustomAction,
    /// Decrement a numeric value by one step.
    Decrement,
    /// Increment a numeric value by one step.
    Increment,
    /// The hide tooltip action.
    HideTooltip,
    /// The show tooltip action.
    ShowTooltip,
    /// The replace selected text action.
    ReplaceSelectedText,
    /// Scroll down by the specified unit.
    ScrollDown,
    /// Scroll left by the specified unit.
    ScrollLeft,
    /// Scroll right by the specified unit.
    ScrollRight,
    /// Scroll up by the specified unit.
    ScrollUp,
    /// Scroll any scrollable containers to make the target node visible.
    ScrollIntoView,
    /// Scroll the given object to a specified point in the tree's container (e.g.
    ScrollToPoint,
    /// Requires [`ActionRequest::data`] to be set to [`ActionData::SetScrollOffset`].
    SetScrollOffset,
    /// Requires [`ActionRequest::data`] to be set to [`ActionData::SetTextSelection`].
    SetTextSelection,
    /// The set sequential focus navigation starting point action.
    SetSequentialFocusNavigationStartingPoint,
    /// The set value action.
    SetValue,
    /// The show context menu action.
    ShowContextMenu,
}

/// The kind of popup an element opens.
#[derive(Debug, Clone, Copy, PartialEq, Eq, Structural)]
pub enum HasPopup {
    /// A menu.
    Menu,
    /// Any other kind of popup.
    Other,
}

/// A character position within a text run node.
#[derive(Debug, Clone, Copy, PartialEq, Eq, Structural)]
pub struct TextPosition {
    /// The text run node.
    pub node: u64,
    /// The index of the character (grapheme cluster) within the run.
    pub character_index: usize,
}

/// A text selection, from its anchor to its focus.
#[derive(Debug, Clone, Copy, PartialEq, Eq, Structural)]
pub struct TextSelection {
    /// Where the selection started.
    pub anchor: TextPosition,
    /// Where the selection ends (the caret).
    pub focus: TextPosition,
}

/// Where the bounds of a node come from; their geometry is resolved from
/// the layout once the tree is built.
#[derive(Debug)]
pub enum Bounds {
    /// The node has no bounds.
    Unset,
    /// The bounds of the widget's own layout.
    Widget,
    /// The bounds of the widget's own layout, grown to a size of at least
    /// one in each direction.
    NonEmptyWidget,
    /// The bounds of the node that the content of the cell with the given
    /// index produced, or else of that cell's layout, grown to a size of at
    /// least one in each direction.
    Cell(usize),
    /// The smallest rectangle holding the bounds of the given nodes (no
    /// bounds when there are none).
    UnionOf(Vec<u64>),
}

/// An accessibility node.
#[derive(Debug)]
pub struct Node {
    /// The role of the node.
    pub role: Role,
    /// Where its bounds come from.
    pub bounds: Bounds,
    /// Its name.
    pub label: Option<String>,
    /// Its description.
    pub description: Option<String>,
    /// Its value.
    pub value: Option<String>,
    /// The hint shown when its value is empty.
    pub placeholder: Option<String>,
    /// Its children, in order.
    pub children: Vec<u64>,
    /// The nodes it controls.
    pub controls: Vec<u64>,
    /// The actions it supports.
    pub actions: Vec<Action>,
    /// The actions its children support.
    pub child_actions: Vec<Action>,
    /// Whether it is disabled.
    pub disabled: bool,
    /// Whether its value can be read but not edited.
    pub read_only: bool,
    /// Whether it holds text being composed by an input method.
    pub text_input_marked: bool,
    /// Whether more than one of its items can be selected.
    pub multiselectable: bool,
    /// Whether it is selected, when it can be.
    pub selected: Option<bool>,
    /// Whether it is expanded, when it can be.
    pub expanded: Option<bool>,
    /// The kind of popup it opens, if any.
    pub has_popup: Option<HasPopup>,
    /// Its row index within a table.
    pub row_index: Option<usize>,
    /// Its column index within a table.
    pub column_index: Option<usize>,
    /// How many rows it spans.
    pub row_span: Option<usize>,
    /// How many columns it spans.
    pub column_span: Option<usize>,
    /// How many rows a table has.
    pub row_count: Option<usize>,
    /// How many columns a table has.
    pub column_count: Option<usize>,
    /// How a column is sorted.
    pub sort_direction: Option<SortDirection>,
    /// The selected text.
    pub text_selection: Option<TextSelection>,
    /// The byte length of each character of a text run.
    pub character_lengths: Vec<u8>,
    /// The indices of the characters of a text run that start words.
    pub word_starts: Vec<u8>,
}

impl Node {
    /// Whether the node has the given role and nothing else set.
    pub open spec fn is_bare(self, role: Role) -> bool {
        &&& self.role == role
        &&& self.bounds is Unset
        &&& self.label is None
        &&& self.description is None
        &&& self.value is None
        &&& self.placeholder is None
        &&& self.children@.len() == 0
        &&& self.controls@.len() == 0
        &&& self.actions@.len() == 0
        &&& self.child_actions@.len() == 0
        &&& !self.disabled
        &&& !self.read_only
        &&& !self.text_input_marked
        &&& !self.multiselectable
        &&& self.selected is None
        &&& self.expanded is None
        &&& self.has_popup is None
        &&& self.row_index is None
        &&& self.column_index is None
        &&& self.row_span is None
        &&& self.column_span is None
        &&& self.row_count is None
        &&& self.column_count is None
        &&& self.sort_direction is None
        &&& self.text_selection is None
        &&& self.character_lengths@.len() == 0
        &&& self.word_starts@.len() == 0
    }

    /// Creates a node with the given role and nothing else set.
    pub fn new(role: Role) -> (r: Node)
        ensures
            r.is_bare(role),
    {
        Node {
            role,
            bounds: Bounds::Unset,
            label: None,
            description: None,
            value: None,
            placeholder: None,
            children: Vec::new(),
            controls: Vec::new(),
            actions: Vec::new(),
            child_actions: Vec::new(),
            disabled: false,
            read_only: false,
            text_input_marked: false,
            multiselectable: false,
            selected: None,
            expanded: None,
            has_popup: None,
            row_index: None,
            column_index: None,
            row_span: None,
            column_span: None,
            row_count: None,
            column_count: None,
            sort_direction: None,
            text_selection: None,
            character_lengths: Vec::new(),
            word_starts: Vec::new(),
        }
    }
}

/// The unit of a scroll request.
#[derive(Debug, Clone, Copy, PartialEq, Eq, Structural)]
pub enum ScrollUnit {
    /// One item of a list or one line of text.
    Item,
    /// One page.
    Page,
}

/// Where a node should end up in its scrollable container's viewport.
#[derive(Debug, Clone, Copy, PartialEq, Eq, Structural)]
pub enum ScrollHint {
    /// The top left corner.
    TopLeft,
    /// The bottom right corner.
    BottomRight,
    /// The top edge.
    TopEdge,
    /// The bottom edge.
    BottomEdge,
    /// The left edge.
    LeftEdge,
    /// The right edge.
    RightEdge,
}

/// Data that comes with an action request.
#[derive(Debug)]
pub enum ActionData {
    /// The identifier of a custom action.
    CustomAction(i32),
    /// A value to set.
    Value(String),
    /// The unit to scroll by.
    ScrollUnit(ScrollUnit),
    /// Where to scroll a node into view.
    ScrollHint(ScrollHint),
    /// A text selection to make.
    SetTextSelection(TextSelection),
    /// A numeric value or a point, which this library does not hold (they
    /// are floating point).
    Unknown,
}

/// A request from an assistive technology to perform an action on a node.
#[derive(Debug)]
pub struct ActionRequest {
    /// The action to perform.
    pub action: Action,
    /// The node it targets.
    pub target_node: u64,
    /// The data that comes with it.
    pub data: Option<ActionData>,
}

/// Takes the next node identifier from the counter.
pub fn next_id(id_counter: &mut u64) -> (id: u64)
    requires
        *old(id_counter) < u64::MAX,
    ensures
        id == *old(id_counter),
        *final(id_counter) == *old(id_counter) + 1,
{
    let id = *id_counter;
    *id_counter = id + 1;
    id
}

/// The index of the first node with identifier `id`, or the number of nodes
/// when there is none.
pub open spec fn first_with_id(nodes: Seq<(u64, Node)>, id: u64) -> int
    decreases nodes.len(),
{
    if nodes.len() == 0 {
        0
    } else if nodes[0].0 == id {
        0
    } else {
        1 + first_with_id(nodes.drop_first(), id)
    }
}

/// Where the first node with identifier `id` stands, and that none before it
/// has that identifier.
pub proof fn lemma_first_with_id(nodes: Seq<(u64, Node)>, id: u64)
    ensures
        0 <= first_with_id(nodes, id) <= nodes.len(),
        first_with_id(nodes, id) < nodes.len() ==> nodes[first_with_id(nodes, id)].0 == id,
        forall|j: int| 0 <= j < first_with_id(nodes, id) ==> nodes[j].0 != id,
    decreases nodes.len(),
{
    if nodes.len() > 0 && nodes[0].0 != id {
        lemma_first_with_id(nodes.drop_first(), id);
        assert forall|j: int| 1 <= j < first_with_id(nodes, id) implies nodes[j].0 != id by {
            assert(nodes[j] == nodes.drop_first()[j - 1]);
        }
    }
}


/// Finds the index of the first node with identifier `id`, or the number of
/// nodes when there is none.
pub fn find_node(nodes: &Vec<(u64, Node)>, id: u64) -> (r: usize)
    ensures
        r == first_with_id(nodes@, id),
{
    let mut k: usize = 0;
    proof {
        lemma_first_with_id(nodes@, id);
    }
    while k < nodes.len()
        invariant
            k <= nodes@.len(),
            forall|j: int| 0 <= j < k ==> nodes@[j].0 != id,
            0 <= first_with_id(nodes@, id) <= nodes@.len(),
            first_with_id(nodes@, id) < nodes@.len() ==> nodes@[first_with_id(nodes@, id)].0 == id,
            forall|j: int| 0 <= j < first_with_id(nodes@, id) ==> nodes@[j].0 != id,
        decreases nodes@.len() - k,
    {
        if nodes[k].0 == id {
            return k;
        }
        k += 1;
    }
    k
}

} // verus!
