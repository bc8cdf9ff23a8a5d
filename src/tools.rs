//! The tool layer: parameters, results, the per-call context and the registry.

use vstd::prelude::*;
use crate::clickable::{clickable_lines, clickable_listing, join_lines, ClickableListing};
use crate::dom::{capped, idx_tree, strings_view, interactive_count, range_from, DomTree, ElementNode};
use crate::snapshot::{generate_snapshot, snapshot};
use crate::error::BrowserError;
use crate::text::{dec, decimal, same_text};

verus! {

/// Declares `serde_json::Value`, so that results can carry JSON data; the
/// library never looks inside such a value.
#[verifier::external_type_specification]
#[verifier::external_body]
pub struct ExJsonValue(serde_json::Value);

/// Outcome of one tool call.
pub struct ToolResult {
    pub success: bool,
    pub data: Option<serde_json::Value>,
    pub error: Option<String>,
    /// Metadata names and values; a name occurs at most once.
    pub metadata: Vec<(String, serde_json::Value)>,
}

/// The value of the first metadata entry named `k`.
pub open spec fn metadata_lookup(m: Seq<(String, serde_json::Value)>, k: Seq<char>) -> Option<serde_json::Value>
    decreases m.len(),
{
    if m.len() == 0 {
        None
    } else {
        match metadata_lookup(m.drop_last(), k) {
            Some(v) => Some(v),
            None => if m.last().0@ == k {
                Some(m.last().1)
            } else {
                None
            },
        }
    }
}

proof fn lemma_metadata_prefix(m: Seq<(String, serde_json::Value)>, i: int, k: Seq<char>)
    requires
        0 <= i <= m.len(),
        metadata_lookup(m.take(i), k) is Some,
    ensures
        metadata_lookup(m, k) == metadata_lookup(m.take(i), k),
    decreases m.len() - i,
{
    if i < m.len() {
        assert(m.take(i + 1).drop_last() =~= m.take(i));
        lemma_metadata_prefix(m, i + 1, k);
    } else {
        assert(m.take(i) =~= m);
    }
}

impl ToolResult {
    /// A success carrying `data`.
    pub fn success(data: Option<serde_json::Value>) -> (r: ToolResult)
        ensures
            r.success,
            r.data == data,
            r.error is None,
            r.metadata@.len() == 0,
    {
        ToolResult { success: true, data, error: None, metadata: Vec::new() }
    }

    /// A failure with the message `error`.
    pub fn failure(error: &str) -> (r: ToolResult)
        ensures
            !r.success,
            r.data is None,
            r.error matches Some(e) && e@ == error@,
            r.metadata@.len() == 0,
    {
        ToolResult { success: false, data: None, error: Some(String::from_str(error)), metadata: Vec::new() }
    }

    /// Whether metadata `key` is set.
    pub fn has_metadata(&self, key: &str) -> (r: bool)
        ensures
            r == metadata_lookup(self.metadata@, key@) is Some,
    {
        let mut i: usize = 0;
        while i < self.metadata.len()
            invariant
                i <= self.metadata@.len(),
                metadata_lookup(self.metadata@.take(i as int), key@) is None,
            decreases self.metadata@.len() - i,
        {
            assert(self.metadata@.take(i + 1).drop_last() =~= self.metadata@.take(i as int));
            if same_text(&self.metadata[i].0, key) {
                proof {
                    lemma_metadata_prefix(self.metadata@, i + 1, key@);
                }
                return true;
            }
            i = i + 1;
        }
        assert(self.metadata@.take(i as int) =~= self.metadata@);
        false
    }

    /// Sets metadata `key` to `value`, replacing an earlier value of that key.
    pub fn with_metadata(self, key: &str, value: serde_json::Value) -> (r: ToolResult)
        ensures
            r.success == self.success,
            r.data == self.data,
            r.error == self.error,
            metadata_lookup(r.metadata@, key@) == Some(value),
            forall|k: Seq<char>| k != key@ ==> #[trigger] metadata_lookup(r.metadata@, k)
                == metadata_lookup(self.metadata@, k),
    {
        let ToolResult { success, data, error, metadata } = self;
        let ghost before = metadata@;
        let mut kept: Vec<(String, serde_json::Value)> = Vec::new();
        let mut rest = metadata;
        let n = rest.len();
        let mut i: usize = 0;
        while i < n
            invariant
                n == before.len(),
                i <= n,
                rest@ == before.subrange(i as int, n as int),
                forall|k: Seq<char>| k != key@ ==> #[trigger] metadata_lookup(kept@, k)
                    == metadata_lookup(before.take(i as int), k),
                metadata_lookup(kept@, key@) is None,
            decreases n - i,
        {
            let entry = rest.remove(0);
            assert(entry == before[i as int]);
            assert(rest@ =~= before.subrange(i + 1, n as int));
            assert(before.take(i + 1).drop_last() =~= before.take(i as int));
            assert(before.take(i + 1).last() == entry);
            let ghost kept_before = kept@;
            let ghost post = before.take(i + 1);
            let ghost pre = before.take(i as int);
            if !same_text(&entry.0, key) {
                kept.push(entry);
                assert(kept@.drop_last() =~= kept_before);
            }
            assert forall|k: Seq<char>| k != key@ implies #[trigger] metadata_lookup(kept@, k)
                == metadata_lookup(post, k) by {
                assert(metadata_lookup(kept_before, k) == metadata_lookup(pre, k));
            }
            i = i + 1;
        }
        assert(before.take(n as int) =~= before);
        let ghost kept_before = kept@;
        kept.push((String::from_str(key), value));
        assert(kept@.drop_last() =~= kept_before);
        assert forall|k: Seq<char>| k != key@ implies #[trigger] metadata_lookup(kept@, k)
            == metadata_lookup(before, k) by {
            assert(metadata_lookup(kept_before, k) == metadata_lookup(before.take(n as int), k));
        }
        ToolResult { success, data, error, metadata: kept }
    }
}

/// Per-call scope: the page structure is read at most once and then reused.
pub struct ToolContext {
    dom_tree: Option<DomTree>,
    /// How many times this context has read the page.
    extractions: Ghost<nat>,
}

/// The error of a result, if any.
pub open spec fn err_of<T>(r: Result<T, BrowserError>) -> Option<BrowserError> {
    match r {
        Ok(_) => None,
        Err(e) => Some(e),
    }
}

/// The error that a read of the page left: the error of `r` when the context
/// still holds no tree afterwards.
pub open spec fn read_failure<T>(after: ToolContext, r: Result<T, BrowserError>) -> Option<BrowserError> {
    if after.cached() is None {
        err_of(r)
    } else {
        None
    }
}

/// One access to the tree of a context: a context that holds a tree keeps
/// it and reads nothing; an empty one reads the page once through `extract`,
/// and then holds the indexed tree of what came back, or stays empty and
/// reports the reader's error as `failure`.
pub open spec fn read_step<F: FnOnce() -> Result<ElementNode, BrowserError>>(
    before: ToolContext,
    after: ToolContext,
    extract: F,
    failure: Option<BrowserError>,
) -> bool {
    if before.cached() is Some {
        &&& after.cached() == before.cached()
        &&& after.extraction_count() == before.extraction_count()
        &&& failure is None
    } else {
        &&& after.extraction_count() == before.extraction_count() + 1
        &&& exists|x: Result<ElementNode, BrowserError>| {
            &&& #[trigger] extract.ensures((), x)
            &&& match x {
                Ok(root) => {
                    &&& after.cached() is Some
                    &&& after.cached()->0.root@ == idx_tree(root@).0
                    &&& after.cached()->0.selector_map@ == idx_tree(root@).1
                    &&& failure is None
                },
                Err(e) => {
                    &&& after.cached() is None
                    &&& failure == Some(e)
                },
            }
        }
    }
}

impl ToolContext {
    /// The tree held, if the page was read already or a tree was given.
    pub closed spec fn cached(&self) -> Option<DomTree> {
        self.dom_tree
    }

    /// How many times this context has read the page.
    pub closed spec fn extraction_count(&self) -> nat {
        self.extractions@
    }

    /// A tree held is well formed.
    pub open spec fn wf(&self) -> bool {
        self.cached() matches Some(d) ==> d.wf()
    }

    /// A context that has not read the page yet.
    pub fn new() -> (r: ToolContext)
        ensures
            r.wf(),
            r.cached() is None,
            r.extraction_count() == 0,
    {
        ToolContext { dom_tree: None, extractions: Ghost(0) }
    }

    /// A context that uses `dom_tree` and never reads the page itself.
    pub fn with_dom(dom_tree: DomTree) -> (r: ToolContext)
        requires
            dom_tree.wf(),
        ensures
            r.wf(),
            r.cached() == Some(dom_tree),
            r.extraction_count() == 0,
    {
        ToolContext { dom_tree: Some(dom_tree), extractions: Ghost(0) }
    }

    /// Whether the next [`ToolContext::get_dom`] will read the page.
    pub fn needs_extraction(&self) -> (r: bool)
        ensures
            r == (self.cached() is None),
    {
        self.dom_tree.is_none()
    }

    /// The tree of this context. The first call reads the page through
    /// `extract` and indexes what it returns; later calls return that tree
    /// and do not call `extract`.
    pub fn get_dom<F: FnOnce() -> Result<ElementNode, BrowserError>>(&mut self, extract: F) -> (r: Result<&DomTree, BrowserError>)
        requires
            old(self).wf(),
            old(self).cached() is None ==> extract.requires(()),
        ensures
            final(self).wf(),
            read_step(*old(self), *final(self), extract, err_of(r)),
            r is Ok <==> final(self).cached() is Some,
            r matches Ok(d) ==> final(self).cached() == Some(*d) && d.wf(),
    {
        if self.dom_tree.is_none() {
            let x = extract();
            let ghost gx = x;
            assert(extract.ensures((), gx));
            self.extractions = Ghost(self.extractions@ + 1);
            match x {
                Ok(root) => {
                    self.dom_tree = Some(DomTree::new(root));
                },
                Err(e) => {
                    return Err(e);
                },
            }
        }
        match &self.dom_tree {
            Some(d) => Ok(d),
            None => Err(BrowserError::DomExtractionFailed(String::new())),
        }
    }
}

/// Which element a tool acts on: a locator, or a handle of the current tree.
pub enum ElementSelector {
    Css { selector: String },
    Index { index: usize },
}

/// The message of a handle that resolves to nothing.
pub open spec fn no_element_message(index: nat) -> Seq<char> {
    "No element with index "@ + dec(index)
}

/// Resolution of a selector against a tree: a locator stands for itself, a
/// handle for its locator in the tree's map.
pub open spec fn resolved(sel: ElementSelector, d: DomTree) -> Result<Seq<char>, Seq<char>> {
    match sel {
        ElementSelector::Css { selector } => Ok(selector@),
        ElementSelector::Index { index } => if index < d.selector_map@.len() {
            Ok(d.selector_map@[index as int])
        } else {
            Err(no_element_message(index as nat))
        },
    }
}

/// The message of parameters of `tool` that name no element.
pub open spec fn invalid_selector_message(tool: Seq<char>) -> Seq<char> {
    "Invalid "@ + tool + " parameters: expected either 'selector' or 'index'"@
}

impl ElementSelector {
    /// The selector given by the parameters' shape for `tool`: `selector`
    /// when it is present, else `index`; an invalid argument when neither is.
    pub fn from_fields(tool: &str, selector: Option<String>, index: Option<usize>) -> (r: Result<ElementSelector, BrowserError>)
        ensures
            match selector {
                Some(s) => r matches Ok(ElementSelector::Css { selector: t }) && t@ == s@,
                None => match index {
                    Some(i) => r matches Ok(ElementSelector::Index { index: j }) && j == i,
                    None => r matches Err(BrowserError::InvalidArgument(m)) && m@ == invalid_selector_message(tool@),
                },
            },
    {
        match selector {
            Some(s) => Ok(ElementSelector::Css { selector: s }),
            None => match index {
                Some(i) => Ok(ElementSelector::Index { index: i }),
                None => {
                    let mut m = String::from_str("Invalid ");
                    m.append(tool);
                    m.append(" parameters: expected either 'selector' or 'index'");
                    Err(BrowserError::InvalidArgument(m))
                },
            },
        }
    }
}

/// What resolving `sel` does: a locator stands for itself and leaves the
/// context as it is; a handle takes one access to the tree and is then
/// looked up in its map.
pub open spec fn located<F: FnOnce() -> Result<ElementNode, BrowserError>>(
    sel: ElementSelector,
    before: ToolContext,
    after: ToolContext,
    extract: F,
    r: Result<String, BrowserError>,
) -> bool {
    match sel {
        ElementSelector::Css { selector } => {
            &&& after == before
            &&& (r matches Ok(l) && l@ == selector@)
        },
        ElementSelector::Index { index } => {
            &&& read_step(before, after, extract, read_failure(after, r))
            &&& match after.cached() {
                Some(d) => match resolved(sel, d) {
                    Ok(l) => (r matches Ok(s) && s@ == l),
                    Err(m) => (r matches Err(BrowserError::ElementNotFound(e)) && e@ == m),
                },
                None => r is Err,
            }
        },
    }
}

/// The locator that `sel` stands for. A handle reads the tree of `context`
/// (through `extract` if the context has none yet) and is looked up in its
/// map; a locator is returned as it is, without reading anything.
pub fn resolve_selector<F: FnOnce() -> Result<ElementNode, BrowserError>>(
    sel: &ElementSelector,
    context: &mut ToolContext,
    extract: F,
) -> (r: Result<String, BrowserError>)
    requires
        old(context).wf(),
        old(context).cached() is None ==> extract.requires(()),
    ensures
        final(context).wf(),
        located(*sel, *old(context), *final(context), extract, r),
{
    match sel {
        ElementSelector::Css { selector } => Ok(selector.clone()),
        ElementSelector::Index { index } => {
            let dom = context.get_dom(extract)?;
            match dom.get_selector(*index) {
                Some(l) => Ok(l),
                None => {
                    let mut m = String::from_str("No element with index ");
                    let d = decimal(*index);
                    m.append(d.as_str());
                    Err(BrowserError::ElementNotFound(m))
                },
            }
        },
    }
}

/// Parameters of the click tool.
pub struct ClickParams {
    pub selector: ElementSelector,
}

/// Parameters of the hover tool.
pub struct HoverParams {
    pub selector: ElementSelector,
}

/// Parameters of the select tool: the dropdown and the value to choose.
pub struct SelectParams {
    pub selector: ElementSelector,
    pub value: String,
}

/// Parameters of the input tool.
pub struct InputParams {
    pub selector: String,
    pub text: String,
    /// Clear the field before typing.
    pub clear: bool,
}

/// Parameters of the navigate tool.
pub struct NavigateParams {
    pub url: String,
    /// Wait until the page has loaded.
    pub wait_for_load: bool,
}

/// Parameters of the evaluate tool.
pub struct EvaluateParams {
    pub code: String,
    /// Wait for a returned promise to settle.
    pub await_promise: bool,
}

/// Parameters of the screenshot tool.
pub struct ScreenshotParams {
    pub path: String,
    pub full_page: bool,
}

/// Parameters of the wait tool.
pub struct WaitParams {
    pub selector: String,
    pub timeout_ms: u64,
}

/// The snapshot tool takes no parameters.
pub struct SnapshotParams {}

/// The clickable-elements tool takes no parameters.
pub struct GetClickableElementsParams {}

/// `wait_for_load` when it is not given.
pub fn default_wait() -> (r: bool)
    ensures
        r,
{
    true
}

/// `timeout_ms` when it is not given.
pub fn default_timeout() -> (r: u64)
    ensures
        r == 30000,
{
    30000
}

/// Navigates to a URL.
pub struct NavigateTool;

/// Clicks an element.
pub struct ClickTool;

/// Types text into a field.
pub struct InputTool;

/// Runs a script in the page.
pub struct EvaluateTool;

/// Captures the page as an image.
pub struct ScreenshotTool;

/// Waits for an element to appear.
pub struct WaitTool;

/// Moves the pointer over an element.
pub struct HoverTool;

/// Chooses an option of a dropdown.
pub struct SelectTool;

/// Renders the indexed page as text.
pub struct SnapshotTool;

/// Lists the elements that hold a handle.
pub struct GetClickableElementsTool;

/// The rendered page and the number of interactive nodes.
pub struct SnapshotOutcome {
    pub snapshot: String,
    pub interactive_count: usize,
}

/// The outcome of a script that reports `success` and, on failure, `error`:
/// success only when it said so.
pub open spec fn script_outcome_spec(tool: Seq<char>, succeeded: Option<bool>, error: Option<Seq<char>>) -> Result<(), (Seq<char>, Seq<char>)> {
    if succeeded == Some(true) {
        Ok(())
    } else {
        Err((tool, match error {
            Some(e) => e,
            None => "Unknown error"@,
        }))
    }
}

pub fn script_outcome(tool: &str, succeeded: Option<bool>, error: Option<String>) -> (r: Result<(), BrowserError>)
    ensures
        match script_outcome_spec(tool@, succeeded, match error { Some(e) => Some(e@), None => None }) {
            Ok(_) => r is Ok,
            Err((t, m)) => r matches Err(BrowserError::ToolExecutionFailed { tool: rt, reason }) && rt@ == t
                && reason@ == m,
        },
{
    if succeeded == Some(true) {
        Ok(())
    } else {
        let reason = match error {
            Some(e) => e,
            None => String::from_str("Unknown error"),
        };
        Err(BrowserError::ToolExecutionFailed { tool: String::from_str(tool), reason })
    }
}

impl NavigateTool {
    pub fn name(&self) -> (r: &'static str)
        ensures
            r@ == "navigate"@,
    {
        "navigate"
    }

    pub fn description(&self) -> (r: &'static str)
        ensures
            r@ == "Navigate to a specified URL in the browser"@,
    {
        "Navigate to a specified URL in the browser"
    }
}

impl ClickTool {
    pub fn name(&self) -> (r: &'static str)
        ensures
            r@ == "click"@,
    {
        "click"
    }

    pub fn description(&self) -> (r: &'static str)
        ensures
            r@ == "Click on an element specified by CSS selector or index"@,
    {
        "Click on an element specified by CSS selector or index"
    }

    /// The locator of the element to click.
    pub fn locate<F: FnOnce() -> Result<ElementNode, BrowserError>>(
        &self,
        params: &ClickParams,
        context: &mut ToolContext,
        extract: F,
    ) -> (r: Result<String, BrowserError>)
        requires
            old(context).wf(),
            old(context).cached() is None ==> extract.requires(()),
        ensures
            final(context).wf(),
            located(params.selector, *old(context), *final(context), extract, r),
    {
        resolve_selector(&params.selector, context, extract)
    }
}

impl InputTool {
    pub fn name(&self) -> (r: &'static str)
        ensures
            r@ == "input"@,
    {
        "input"
    }

    pub fn description(&self) -> (r: &'static str)
        ensures
            r@ == "Type text into an input element"@,
    {
        "Type text into an input element"
    }

    /// How many times Backspace is pressed to clear a field before `text`
    /// is typed: the length of `text` and 100 more (at most `usize::MAX`).
    pub fn clearing_keystrokes(&self, text: &str) -> (r: usize)
        ensures
            r as nat == if text@.len() + 100 <= usize::MAX { text@.len() + 100 } else { usize::MAX as nat },
    {
        text.unicode_len().saturating_add(100)
    }
}

impl EvaluateTool {
    pub fn name(&self) -> (r: &'static str)
        ensures
            r@ == "evaluate"@,
    {
        "evaluate"
    }

    pub fn description(&self) -> (r: &'static str)
        ensures
            r@ == "Execute JavaScript code in the browser context"@,
    {
        "Execute JavaScript code in the browser context"
    }
}

impl ScreenshotTool {
    pub fn name(&self) -> (r: &'static str)
        ensures
            r@ == "screenshot"@,
    {
        "screenshot"
    }

    pub fn description(&self) -> (r: &'static str)
        ensures
            r@ == "Capture a screenshot of the current page"@,
    {
        "Capture a screenshot of the current page"
    }
}

impl WaitTool {
    pub fn name(&self) -> (r: &'static str)
        ensures
            r@ == "wait"@,
    {
        "wait"
    }

    pub fn description(&self) -> (r: &'static str)
        ensures
            r@ == "Wait for an element to appear on the page"@,
    {
        "Wait for an element to appear on the page"
    }
}

impl HoverTool {
    pub fn name(&self) -> (r: &'static str)
        ensures
            r@ == "hover"@,
    {
        "hover"
    }

    /// The locator of the element to hover.
    pub fn locate<F: FnOnce() -> Result<ElementNode, BrowserError>>(
        &self,
        params: &HoverParams,
        context: &mut ToolContext,
        extract: F,
    ) -> (r: Result<String, BrowserError>)
        requires
            old(context).wf(),
            old(context).cached() is None ==> extract.requires(()),
        ensures
            final(context).wf(),
            located(params.selector, *old(context), *final(context), extract, r),
    {
        resolve_selector(&params.selector, context, extract)
    }
}

impl SelectTool {
    pub fn name(&self) -> (r: &'static str)
        ensures
            r@ == "select"@,
    {
        "select"
    }

    /// The locator of the dropdown.
    pub fn locate<F: FnOnce() -> Result<ElementNode, BrowserError>>(
        &self,
        params: &SelectParams,
        context: &mut ToolContext,
        extract: F,
    ) -> (r: Result<String, BrowserError>)
        requires
            old(context).wf(),
            old(context).cached() is None ==> extract.requires(()),
        ensures
            final(context).wf(),
            located(params.selector, *old(context), *final(context), extract, r),
    {
        resolve_selector(&params.selector, context, extract)
    }
}

impl SnapshotTool {
    pub fn name(&self) -> (r: &'static str)
        ensures
            r@ == "snapshot"@,
    {
        "snapshot"
    }

    /// The snapshot of the context's tree, read through `extract` if needed.
    pub fn take<F: FnOnce() -> Result<ElementNode, BrowserError>>(&self, context: &mut ToolContext, extract: F) -> (r: Result<SnapshotOutcome, BrowserError>)
        requires
            old(context).wf(),
            old(context).cached() is None ==> extract.requires(()),
        ensures
            final(context).wf(),
            read_step(*old(context), *final(context), extract, err_of(r)),
            r is Ok <==> final(context).cached() is Some,
            r matches Ok(o) ==> {
                &&& o.snapshot@ == snapshot(final(context).cached()->0.root@, 0)
                &&& o.interactive_count == capped(interactive_count(final(context).cached()->0.root@))
            },
    {
        let dom = context.get_dom(extract)?;
        let snapshot = generate_snapshot(&dom.root, 0);
        let interactive_count = dom.count_interactive();
        Ok(SnapshotOutcome { snapshot, interactive_count })
    }
}

impl GetClickableElementsTool {
    pub fn name(&self) -> (r: &'static str)
        ensures
            r@ == "get_clickable_elements"@,
    {
        "get_clickable_elements"
    }

    /// The clickable listing of the context's tree, read through `extract` if needed.
    pub fn list<F: FnOnce() -> Result<ElementNode, BrowserError>>(&self, context: &mut ToolContext, extract: F) -> (r: Result<ClickableListing, BrowserError>)
        requires
            old(context).wf(),
            old(context).cached() is None ==> extract.requires(()),
        ensures
            final(context).wf(),
            read_step(*old(context), *final(context), extract, err_of(r)),
            r is Ok <==> final(context).cached() is Some,
            r matches Ok(l) ==> {
                let d = final(context).cached()->0;
                &&& l.elements@ == join_lines(clickable_lines(d.root@, range_from(0, d.selector_map@.len())))
                &&& l.count == d.selector_map@.len()
            },
    {
        let dom = context.get_dom(extract)?;
        Ok(clickable_listing(dom))
    }
}

/// The tools that a registry can hold.
#[derive(Clone, Copy, Debug, PartialEq, Eq, Structural)]
pub enum ToolKind {
    Navigate,
    Click,
    Input,
    Evaluate,
    Screenshot,
    Wait,
    Hover,
    Select,
    Snapshot,
    GetClickableElements,
}

pub open spec fn tool_name(k: ToolKind) -> Seq<char> {
    match k {
        ToolKind::Navigate => "navigate"@,
        ToolKind::Click => "click"@,
        ToolKind::Input => "input"@,
        ToolKind::Evaluate => "evaluate"@,
        ToolKind::Screenshot => "screenshot"@,
        ToolKind::Wait => "wait"@,
        ToolKind::Hover => "hover"@,
        ToolKind::Select => "select"@,
        ToolKind::Snapshot => "snapshot"@,
        ToolKind::GetClickableElements => "get_clickable_elements"@,
    }
}

impl ToolKind {
    /// The name under which the tool is called.
    pub fn name(&self) -> (r: &'static str)
        ensures
            r@ == tool_name(*self),
    {
        match self {
            ToolKind::Navigate => NavigateTool.name(),
            ToolKind::Click => ClickTool.name(),
            ToolKind::Input => InputTool.name(),
            ToolKind::Evaluate => EvaluateTool.name(),
            ToolKind::Screenshot => ScreenshotTool.name(),
            ToolKind::Wait => WaitTool.name(),
            ToolKind::Hover => HoverTool.name(),
            ToolKind::Select => SelectTool.name(),
            ToolKind::Snapshot => SnapshotTool.name(),
            ToolKind::GetClickableElements => GetClickableElementsTool.name(),
        }
    }
}

pub open spec fn tool_names(s: Seq<ToolKind>) -> Seq<Seq<char>> {
    s.map_values(|k: ToolKind| tool_name(k))
}

/// The first tool of `s` named `name`.
pub open spec fn lookup_tool(s: Seq<ToolKind>, name: Seq<char>) -> Option<ToolKind>
    decreases s.len(),
{
    if s.len() == 0 {
        None
    } else if tool_name(s[0]) == name {
        Some(s[0])
    } else {
        lookup_tool(s.drop_first(), name)
    }
}

/// The message of a call to a tool that is not registered.
pub open spec fn not_found_message(name: Seq<char>) -> Seq<char> {
    "Tool '"@ + name + "' not found"@
}

/// The tools available by name. Each tool is held once, in order of registration.
pub struct ToolRegistry {
    tools: Vec<ToolKind>,
}

impl View for ToolRegistry {
    type V = Seq<ToolKind>;

    closed spec fn view(&self) -> Seq<ToolKind> {
        self.tools@
    }
}

proof fn lemma_lookup_skip(s: Seq<ToolKind>, name: Seq<char>, i: int)
    requires
        0 <= i <= s.len(),
        forall|j: int| 0 <= j < i ==> tool_name(#[trigger] s[j]) != name,
    ensures
        lookup_tool(s, name) == lookup_tool(s.subrange(i, s.len() as int), name),
    decreases i,
{
    if i > 0 {
        lemma_lookup_skip(s.drop_first(), name, i - 1);
        assert(s.drop_first().subrange(i - 1, s.drop_first().len() as int) =~= s.subrange(i, s.len() as int));
    } else {
        assert(s.subrange(0, s.len() as int) =~= s);
    }
}

proof fn lemma_lookup_found(s: Seq<ToolKind>, name: Seq<char>)
    ensures
        lookup_tool(s, name) is Some <==> tool_names(s).contains(name),
        lookup_tool(s, name) matches Some(k) ==> tool_name(k) == name && s.contains(k),
    decreases s.len(),
{
    if s.len() > 0 {
        lemma_lookup_found(s.drop_first(), name);
        let t = tool_names(s);
        let t1 = tool_names(s.drop_first());
        assert(t1 =~= t.drop_first());
        if t.contains(name) && tool_name(s[0]) != name {
            let j = choose|j: int| 0 <= j < t.len() && t[j] == name;
            assert(t1[j - 1] == name);
        }
        if t1.contains(name) {
            let j = choose|j: int| 0 <= j < t1.len() && t1[j] == name;
            assert(t[j + 1] == name);
        }
        if tool_name(s[0]) == name {
            assert(t[0] == name);
        }
        match lookup_tool(s.drop_first(), name) {
            Some(k) => {
                if tool_name(s[0]) != name {
                    let j = choose|j: int| 0 <= j < s.drop_first().len() && s.drop_first()[j] == k;
                    assert(s[j + 1] == k);
                }
            },
            None => {},
        }
        if tool_name(s[0]) == name {
            assert(s.contains(s[0]));
        }
    }
}

impl ToolRegistry {
    /// Each tool is held at most once.
    pub closed spec fn wf(&self) -> bool {
        self.tools@.no_duplicates()
    }

    /// An empty registry.
    pub fn new() -> (r: ToolRegistry)
        ensures
            r.wf(),
            r@.len() == 0,
    {
        ToolRegistry { tools: Vec::new() }
    }

    /// A registry holding every tool of the library.
    pub fn with_defaults() -> (r: ToolRegistry)
        ensures
            r.wf(),
            r@ == seq![
                ToolKind::Navigate,
                ToolKind::Click,
                ToolKind::Input,
                ToolKind::Evaluate,
                ToolKind::Screenshot,
                ToolKind::Wait,
                ToolKind::Hover,
                ToolKind::Select,
                ToolKind::Snapshot,
                ToolKind::GetClickableElements,
            ],
    {
        let mut r = ToolRegistry::new();
        r.register(ToolKind::Navigate);
        r.register(ToolKind::Click);
        r.register(ToolKind::Input);
        r.register(ToolKind::Evaluate);
        r.register(ToolKind::Screenshot);
        r.register(ToolKind::Wait);
        r.register(ToolKind::Hover);
        r.register(ToolKind::Select);
        r.register(ToolKind::Snapshot);
        r.register(ToolKind::GetClickableElements);
        assert(r@ =~= seq![
            ToolKind::Navigate,
            ToolKind::Click,
            ToolKind::Input,
            ToolKind::Evaluate,
            ToolKind::Screenshot,
            ToolKind::Wait,
            ToolKind::Hover,
            ToolKind::Select,
            ToolKind::Snapshot,
            ToolKind::GetClickableElements,
        ]);
        r
    }

    /// Registers `tool`; a tool registered already keeps its place.
    pub fn register(&mut self, tool: ToolKind)
        requires
            old(self).wf(),
        ensures
            final(self).wf(),
            final(self)@ == if old(self)@.contains(tool) {
                old(self)@
            } else {
                old(self)@.push(tool)
            },
    {
        let mut i: usize = 0;
        while i < self.tools.len()
            invariant
                i <= self.tools@.len(),
                self.tools@ == old(self).tools@,
                self.wf(),
                forall|j: int| 0 <= j < i ==> self.tools@[j] != tool,
            decreases self.tools@.len() - i,
        {
            if self.tools[i] == tool {
                assert(self.tools@[i as int] == tool);
                return;
            }
            i = i + 1;
        }
        assert(!self.tools@.contains(tool));
        self.tools.push(tool);
        assert forall|a: int, b: int| 0 <= a < b < self.tools@.len() implies self.tools@[a] != self.tools@[b] by {
            if b == self.tools@.len() - 1 {
                assert(old(self).tools@[a] == self.tools@[a]);
            } else {
                assert(old(self).tools@[a] == self.tools@[a]);
                assert(old(self).tools@[b] == self.tools@[b]);
            }
        }
    }

    /// The tool named `name`.
    pub fn get(&self, name: &str) -> (r: Option<ToolKind>)
        ensures
            r == lookup_tool(self@, name@),
    {
        let mut i: usize = 0;
        while i < self.tools.len()
            invariant
                i <= self.tools@.len(),
                forall|j: int| 0 <= j < i ==> tool_name(#[trigger] self.tools@[j]) != name@,
            decreases self.tools@.len() - i,
        {
            let k = self.tools[i];
            let n = k.name();
            if n.unicode_len() == name.unicode_len() && same_text(&String::from_str(n), name) {
                proof {
                    lemma_lookup_skip(self.tools@, name@, i as int);
                }
                return Some(k);
            }
            i = i + 1;
        }
        proof {
            lemma_lookup_skip(self.tools@, name@, i as int);
        }
        None
    }

    /// Whether a tool named `name` is registered.
    pub fn has(&self, name: &str) -> (r: bool)
        ensures
            r == tool_names(self@).contains(name@),
    {
        proof {
            lemma_lookup_found(self@, name@);
        }
        self.get(name).is_some()
    }

    /// The names of the registered tools, in order of registration.
    pub fn list_names(&self) -> (r: Vec<String>)
        ensures
            strings_view(r@) == tool_names(self@),
    {
        let mut r: Vec<String> = Vec::new();
        let mut i: usize = 0;
        while i < self.tools.len()
            invariant
                i <= self.tools@.len(),
                strings_view(r@) == tool_names(self.tools@.take(i as int)),
            decreases self.tools@.len() - i,
        {
            let n = String::from_str(self.tools[i].name());
            let ghost before = r@;
            r.push(n);
            assert(strings_view(r@) =~= strings_view(before).push(tool_name(self.tools@[i as int])));
            assert(tool_names(self.tools@.take(i + 1)) =~= tool_names(self.tools@.take(i as int)).push(
                tool_name(self.tools@[i as int]),
            ));
            i = i + 1;
        }
        assert(self.tools@.take(i as int) =~= self.tools@);
        r
    }

    /// The registered tools, in order of registration.
    pub fn all_tools(&self) -> (r: Vec<ToolKind>)
        ensures
            r@ == self@,
    {
        self.tools.clone()
    }

    /// Number of registered tools.
    pub fn count(&self) -> (r: usize)
        ensures
            r == self@.len(),
    {
        self.tools.len()
    }

    /// Runs the tool registered as `name` through `run`. A name that no
    /// registered tool has is answered by a failed result naming it, and
    /// `run` is not called.
    pub fn execute<F: FnOnce(ToolKind) -> Result<ToolResult, BrowserError>>(&self, name: &str, run: F) -> (r: Result<ToolResult, BrowserError>)
        requires
            forall|k: ToolKind| run.requires((k,)),
        ensures
            match lookup_tool(self@, name@) {
                Some(k) => run.ensures((k,), r),
                None => r matches Ok(f) && !f.success && f.data is None && f.metadata@.len() == 0
                    && (f.error matches Some(e) && e@ == not_found_message(name@)),
            },
    {
        match self.get(name) {
            Some(k) => run(k),
            None => {
                let mut m = String::from_str("Tool '");
                m.append(name);
                m.append("' not found");
                Ok(ToolResult::failure(m.as_str()))
            },
        }
    }
}

impl Default for ToolRegistry {
    fn default() -> (r: ToolRegistry)
        ensures
            r.wf(),
            r@.len() == 10,
    {
        ToolRegistry::with_defaults()
    }
}

/// A call of a name that no registered tool has is answered by a failure
/// whose message names the missing tool.
pub proof fn lemma_unknown_tool_named(reg: ToolRegistry, name: Seq<char>)
    requires
        !tool_names(reg@).contains(name),
    ensures
        lookup_tool(reg@, name) is None,
        not_found_message(name).subrange(6, 6 + name.len() as int) == name,
{
    lemma_lookup_found(reg@, name);
    reveal_strlit("Tool '");
    assert(not_found_message(name).subrange(6, 6 + name.len() as int) =~= name);
}

} // verus!
