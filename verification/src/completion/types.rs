//! Editor-neutral completion data types.

use vstd::prelude::*;

verus! {

/// Zero-based document position. `character` is measured in UTF-16 code units.
#[derive(Debug, Clone, Copy, Default, PartialEq, Eq)]
pub struct Pos {
    /// Zero-based line number.
    pub line: u32,
    /// Zero-based UTF-16 code-unit offset within the line.
    pub character: u32,
}

/// A completion response independent of LSP or Monaco types.
#[derive(Debug, Clone, Default, PartialEq, Eq)]
pub struct CoreCompletionList {
    /// Completion items in provider-defined display order.
    pub items: Vec<CoreItem>,
    /// Whether the editor should re-query as the user continues typing.
    pub is_incomplete: bool,
}

impl CoreCompletionList {
    /// A complete list with no items.
    pub(crate) fn empty() -> (r: Self)
        ensures
            r.items@.len() == 0,
            !r.is_incomplete,
    {
        CoreCompletionList { items: Vec::new(), is_incomplete: false }
    }
}

/// Editor-neutral completion item.
#[derive(Debug, Clone, PartialEq, Eq)]
pub struct CoreItem {
    /// Primary text displayed for the item.
    pub label: String,
    /// Optional suffix displayed alongside the primary label.
    pub label_description: Option<String>,
    /// Semantic category used by editors for icons and grouping.
    pub kind: CoreItemKind,
    /// Short explanatory text displayed beside the label.
    pub detail: Option<String>,
    /// Optional Markdown documentation for the item.
    pub documentation: Option<String>,
    /// Text and insertion behavior applied when the item is accepted.
    pub insert: InsertSpec,
    /// Text editors use when filtering the item.
    pub filter_text: Option<String>,
    /// Stable lexical key used to preserve provider ordering.
    pub sort_text: Option<String>,
    /// Whether the editor should initially select this item.
    pub preselect: bool,
    /// Explicit document range replaced by the inserted text.
    pub edit_range: EditRange,
    /// Additional edits applied with the primary insertion.
    pub additional_edits: Vec<CoreTextEdit>,
    /// Optional editor action to invoke after insertion.
    pub command: Option<CoreCommand>,
}

/// Editor-neutral completion item categories.
#[derive(Debug, Clone, Copy, PartialEq, Eq)]
pub enum CoreItemKind {
    /// Callable command or function.
    Function,
    /// Language keyword.
    Keyword,
    /// Literal or enumerated value.
    Value,
    /// Named property or modifier.
    Property,
    /// Instrument or other type-like parameter.
    TypeParameter,
    /// Structured declaration.
    Struct,
    /// File or path.
    File,
    /// Reusable snippet template.
    Snippet,
    /// Unclassified text.
    Text,
}

/// Text and editor insertion options for a completion item.
#[derive(Debug, Clone, PartialEq, Eq)]
pub struct InsertSpec {
    /// Plain text or snippet source inserted into the document.
    pub text: String,
    /// Whether `text` is plain text or snippet syntax.
    pub format: InsertFormat,
    /// Insert the text as-is, without the editor adjusting indentation.
    pub as_is: bool,
}

/// Syntax interpretation for inserted completion text.
#[derive(Debug, Clone, Copy, PartialEq, Eq)]
pub enum InsertFormat {
    /// Insert text without interpreting snippet placeholders.
    PlainText,
    /// Interpret insert text as editor snippet syntax.
    Snippet,
}

/// Explicit edit range; both positions use UTF-16 character offsets.
#[derive(Debug, Clone, Copy, PartialEq, Eq)]
pub struct EditRange {
    /// Inclusive start position of the replaced range.
    pub start: Pos,
    /// Exclusive end position of the replaced range.
    pub end: Pos,
}

impl EditRange {
    /// Creates an edit range from its inclusive start and exclusive end.
    pub fn new(start: Pos, end: Pos) -> (r: Self)
        ensures
            r.start == start,
            r.end == end,
    {
        Self { start, end }
    }
}

/// An editor-neutral text edit applied alongside a completion.
#[derive(Debug, Clone, PartialEq, Eq)]
pub struct CoreTextEdit {
    /// Document range replaced by this edit.
    pub range: EditRange,
    /// Replacement text.
    pub new_text: String,
}

/// Editor actions supported after accepting a completion item.
#[derive(Debug, Clone, Copy, PartialEq, Eq)]
pub enum CoreCommand {
    /// Ask the editor to open completion suggestions again.
    TriggerSuggest,
}

/// What one completion provider makes of a position: it does not apply,
/// or it claims the position with this (possibly empty) list.
#[derive(Debug, Clone, PartialEq, Eq)]
pub enum ProviderOutcome {
    NotApplicable,
    Exclusive(CoreCompletionList),
}

impl View for ProviderOutcome {
    type V = Option<ListModel>;

    open spec fn view(&self) -> Option<ListModel> {
        match self {
            ProviderOutcome::NotApplicable => None,
            ProviderOutcome::Exclusive(l) => Some(l@),
        }
    }
}

/// User-configurable completion behavior.
#[derive(Debug, Clone, PartialEq, Eq)]
pub struct CompletionSettings {
    /// Whether arpeggio completions are enabled.
    pub arpeggio_enabled: bool,
    /// Pattern used to render arpeggio completions.
    pub arpeggio_pattern: ArpeggioPattern,
    /// Direction strategy used to render stacked chords.
    pub chord_stack_mode: ChordStackMode,
    /// Whether FM patches use the two-step file-to-patch picker.
    pub fm_picker_hierarchy: bool,
}

impl Default for CompletionSettings {
    /// Arpeggios off (pattern `Up`), chords stacked upward, flat FM picker.
    fn default() -> (r: Self)
        ensures
            !r.arpeggio_enabled,
            r.arpeggio_pattern == ArpeggioPattern::Up,
            r.chord_stack_mode == ChordStackMode::StackUp,
            !r.fm_picker_hierarchy,
    {
        Self {
            arpeggio_enabled: false,
            arpeggio_pattern: ArpeggioPattern::Up,
            chord_stack_mode: ChordStackMode::StackUp,
            fm_picker_hierarchy: false,
        }
    }
}

/// Available arpeggio traversal patterns.
#[derive(Debug, Clone, Copy, PartialEq, Eq)]
pub enum ArpeggioPattern {
    /// Ascend through chord tones.
    Up,
    /// Descend through chord tones.
    Down,
    /// Ascend and then descend.
    UpDown,
    /// Descend and then ascend.
    DownUp,
    /// Alternate low, high, middle, high tones.
    Alberti,
}

/// Rendering modes for chord completions.
#[derive(Debug, Clone, Copy, PartialEq, Eq)]
pub enum ChordStackMode {
    /// Adjust octaves so chord tones rise monotonically.
    StackUp,
    /// Render chord letters without octave stacking.
    Plain,
}

/// Host data requested by a completion provider.
#[derive(Debug, Clone, PartialEq, Eq)]
pub enum DataRequest {
    /// Request PCM paths reachable from the current document.
    PcmPaths,
    /// Request PCM files usable in instrument definitions.
    PcmFiles,
    /// Request converted FM patches, optionally beneath a path fragment.
    FmPatches {
        /// Typed relative-path fragment used by the hierarchy picker.
        fragment: Option<String>,
    },
    /// Request the compiled tick and PPQN at the cursor.
    CursorTick,
}

/// Host-supplied data used to resolve a completion request.
#[derive(Debug, Clone, PartialEq, Eq)]
pub enum DataPayload {
    /// Relative PCM paths reachable from the current document.
    PcmPaths(Vec<String>),
    /// Relative PCM files usable in instrument definitions.
    PcmFiles(Vec<String>),
    /// Converted FM patches; an empty vector means conversion was unavailable.
    FmPatches(Vec<FmPatchData>),
    /// Compiled cursor timing, or `None` when compilation failed.
    CursorTick(Option<CursorTickData>),
}

/// One converted FM patch supplied by a host adapter.
#[derive(Debug, Clone, PartialEq, Eq)]
pub struct FmPatchData {
    /// Slash-separated path relative to a configured instrument root.
    pub rel_path: String,
    /// Patch name within a multi-patch file, when present.
    pub name: Option<String>,
    /// Converted `@N fm` body.
    pub mml: String,
    /// Whether the converted body contains macros.
    pub has_macros: bool,
}

/// Compiled timing information at the completion cursor.
#[derive(Debug, Clone, Copy, PartialEq, Eq)]
pub struct CursorTickData {
    /// Absolute tick at the cursor.
    pub tick: u32,
    /// Pulses per quarter note used by the compiled document.
    pub ppqn: u32,
}

/// First-stage completion result.
#[derive(Debug, Clone, PartialEq, Eq)]
pub enum CompletionPlan {
    /// Completion finished without host data.
    Done(CoreCompletionList),
    /// Completion requires the host to supply the enclosed data kind.
    NeedsData(DataRequest),
}

// ---------------------------------------------------------------------------
// Models
// ---------------------------------------------------------------------------

/// A text edit as a range and the characters it inserts.
pub struct EditModel {
    pub range: EditRange,
    pub new_text: Seq<char>,
}

/// A completion item with its text fields as character sequences.
pub struct ItemModel {
    pub label: Seq<char>,
    pub label_description: Option<Seq<char>>,
    pub kind: CoreItemKind,
    pub detail: Option<Seq<char>>,
    pub documentation: Option<Seq<char>>,
    pub insert_text: Seq<char>,
    pub format: InsertFormat,
    pub as_is: bool,
    pub filter_text: Option<Seq<char>>,
    pub sort_text: Option<Seq<char>>,
    pub preselect: bool,
    pub edit_range: EditRange,
    pub additional_edits: Seq<EditModel>,
    pub command: Option<CoreCommand>,
}

/// A completion list: its items in order and whether it is incomplete.
pub struct ListModel {
    pub items: Seq<ItemModel>,
    pub is_incomplete: bool,
}

/// A data request, its fragment as characters.
pub enum RequestModel {
    PcmPaths,
    PcmFiles,
    FmPatches(Option<Seq<char>>),
    CursorTick,
}

/// A first-stage completion result.
pub enum PlanModel {
    Done(ListModel),
    NeedsData(RequestModel),
}

/// The characters of an optional string.
pub open spec fn opt_chars(o: Option<String>) -> Option<Seq<char>> {
    match o {
        Some(s) => Some(s@),
        None => None,
    }
}

impl View for CoreTextEdit {
    type V = EditModel;

    open spec fn view(&self) -> EditModel {
        EditModel { range: self.range, new_text: self.new_text@ }
    }
}

impl View for CoreItem {
    type V = ItemModel;

    open spec fn view(&self) -> ItemModel {
        ItemModel {
            label: self.label@,
            label_description: opt_chars(self.label_description),
            kind: self.kind,
            detail: opt_chars(self.detail),
            documentation: opt_chars(self.documentation),
            insert_text: self.insert.text@,
            format: self.insert.format,
            as_is: self.insert.as_is,
            filter_text: opt_chars(self.filter_text),
            sort_text: opt_chars(self.sort_text),
            preselect: self.preselect,
            edit_range: self.edit_range,
            additional_edits: self.additional_edits@.map_values(|e: CoreTextEdit| e@),
            command: self.command,
        }
    }
}

impl View for CoreCompletionList {
    type V = ListModel;

    open spec fn view(&self) -> ListModel {
        ListModel { items: self.items@.map_values(|i: CoreItem| i@), is_incomplete: self.is_incomplete }
    }
}

impl View for DataRequest {
    type V = RequestModel;

    open spec fn view(&self) -> RequestModel {
        match self {
            DataRequest::PcmPaths => RequestModel::PcmPaths,
            DataRequest::PcmFiles => RequestModel::PcmFiles,
            DataRequest::FmPatches { fragment } => RequestModel::FmPatches(opt_chars(*fragment)),
            DataRequest::CursorTick => RequestModel::CursorTick,
        }
    }
}

impl View for CompletionPlan {
    type V = PlanModel;

    open spec fn view(&self) -> PlanModel {
        match self {
            CompletionPlan::Done(l) => PlanModel::Done(l@),
            CompletionPlan::NeedsData(r) => PlanModel::NeedsData(r@),
        }
    }
}

/// An FM patch with its text fields as characters.
pub struct PatchModel {
    pub rel_path: Seq<char>,
    pub name: Option<Seq<char>>,
    pub mml: Seq<char>,
    pub has_macros: bool,
}

/// Host data with its text fields as characters.
pub enum PayloadModel {
    PcmPaths(Seq<Seq<char>>),
    PcmFiles(Seq<Seq<char>>),
    FmPatches(Seq<PatchModel>),
    CursorTick(Option<CursorTickData>),
}

/// The characters of each string.
pub open spec fn strings_view(v: Seq<String>) -> Seq<Seq<char>> {
    v.map_values(|s: String| s@)
}

impl View for FmPatchData {
    type V = PatchModel;

    open spec fn view(&self) -> PatchModel {
        PatchModel { rel_path: self.rel_path@, name: opt_chars(self.name), mml: self.mml@, has_macros: self.has_macros }
    }
}

impl View for DataPayload {
    type V = PayloadModel;

    open spec fn view(&self) -> PayloadModel {
        match self {
            DataPayload::PcmPaths(v) => PayloadModel::PcmPaths(strings_view(v@)),
            DataPayload::PcmFiles(v) => PayloadModel::PcmFiles(strings_view(v@)),
            DataPayload::FmPatches(v) => PayloadModel::FmPatches(v@.map_values(|p: FmPatchData| p@)),
            DataPayload::CursorTick(t) => PayloadModel::CursorTick(*t),
        }
    }
}

} // verus!
