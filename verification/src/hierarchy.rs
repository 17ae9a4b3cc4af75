//! Checking the hierarchy of a document: its catalog, its page tree and its
//! pages.

use std::collections::HashSet;
use vstd::prelude::*;
use crate::describe::{cat_got, cat_object, got, obj_text};
use crate::document::{DocV, DocumentReader};
use crate::error::PdfError;
use crate::objects::{dict_get, lemma_array_view, objs_view, Dict, DictV, ObjV, Object, ObjectId};
use crate::pages::dict_name;
use crate::text::{cat, cat_id, cat_int, cat_nat, dec, id_text, same_text};

verus! {

broadcast use vstd::std_specs::hash::group_hash_axioms;

// ------------------------------------------------------------------ report

/// How much an issue matters.
#[derive(Debug, Clone, Copy, PartialEq, Eq, Structural)]
pub enum IssueSeverity {
    /// What keeps the document from being shown.
    Error,
    /// What a reader can put up with.
    Warning,
}

/// One issue.
#[derive(Debug, Clone)]
pub struct HierarchyIssue {
    /// The object at fault.
    pub object_id: Option<ObjectId>,
    pub severity: IssueSeverity,
    pub message: String,
}

/// One issue as a mathematical value.
pub struct IssueV {
    pub object_id: Option<ObjectId>,
    pub severity: IssueSeverity,
    pub message: Seq<char>,
}

impl View for HierarchyIssue {
    type V = IssueV;

    open spec fn view(&self) -> IssueV {
        IssueV {
            object_id: self.object_id,
            severity: self.severity,
            message: self.message@,
        }
    }
}

/// Issues as mathematical values.
pub open spec fn issues_view(s: Seq<HierarchyIssue>) -> Seq<IssueV> {
    s.map_values(|i: HierarchyIssue| i@)
}

/// Borrowed issues as mathematical values.
pub open spec fn issue_refs(s: Seq<&HierarchyIssue>) -> Seq<IssueV> {
    s.map_values(|i: &HierarchyIssue| i@)
}

/// What was found in a document.
#[derive(Debug, Clone)]
pub struct HierarchyReport {
    /// How many pages were found.
    pub page_count: usize,
    /// How deep the walk went.
    pub max_depth: usize,
    /// The issues, in the order in which they were found.
    pub issues: Vec<HierarchyIssue>,
}

/// A report as a mathematical value.
pub struct ReportV {
    pub page_count: usize,
    pub max_depth: usize,
    pub issues: Seq<IssueV>,
}

impl View for HierarchyReport {
    type V = ReportV;

    open spec fn view(&self) -> ReportV {
        ReportV {
            page_count: self.page_count,
            max_depth: self.max_depth,
            issues: issues_view(self.issues@),
        }
    }
}

impl Default for HierarchyReport {
    fn default() -> (r: HierarchyReport)
        ensures
            r@ == (ReportV { page_count: 0, max_depth: 0, issues: Seq::empty() }),
    {
        let r: HierarchyReport = HierarchyReport {
            page_count: 0,
            max_depth: 0,
            issues: Vec::new(),
        };
        proof {
            assert(r@.issues =~= Seq::empty());
        }
        r
    }
}

/// The issues of one severity among the first `n`, in order.
pub open spec fn with_severity(issues: Seq<IssueV>, n: int, severity: IssueSeverity) -> Seq<IssueV>
    decreases n,
{
    if n <= 0 || n > issues.len() {
        Seq::empty()
    } else if issues[n - 1].severity == severity {
        with_severity(issues, n - 1, severity).push(issues[n - 1])
    } else {
        with_severity(issues, n - 1, severity)
    }
}

/// No issue is an error.
pub open spec fn free_of_errors(issues: Seq<IssueV>) -> bool {
    forall|i: int| 0 <= i < issues.len() ==> (#[trigger] issues[i]).severity != IssueSeverity::Error
}

impl HierarchyReport {
    /// Whether no errors were found; warnings do not count.
    pub fn is_valid(&self) -> (r: bool)
        ensures
            r == free_of_errors(self@.issues),
    {
        let mut i: usize = 0;
        while i < self.issues.len()
            invariant
                i <= self.issues@.len(),
                forall|j: int|
                    0 <= j < i ==> (#[trigger] self.issues@[j]).severity != IssueSeverity::Error,
            decreases self.issues.len() - i,
        {
            if self.issues[i].severity == IssueSeverity::Error {
                proof {
                    assert(self@.issues[i as int].severity == IssueSeverity::Error);
                }
                return false;
            }
            i = i + 1;
        }
        true
    }

    fn of_severity(&self, severity: IssueSeverity) -> (r: Vec<&HierarchyIssue>)
        ensures
            issue_refs(r@) == with_severity(
                self@.issues,
                self@.issues.len() as int,
                severity,
            ),
    {
        let mut out: Vec<&HierarchyIssue> = Vec::new();
        proof {
            assert(issue_refs(out@) =~= Seq::empty());
        }
        let mut i: usize = 0;
        while i < self.issues.len()
            invariant
                i <= self.issues@.len(),
                issue_refs(out@) == with_severity(self@.issues, i as int, severity),
            decreases self.issues.len() - i,
        {
            let ghost before = issue_refs(out@);
            let issue: &HierarchyIssue = &self.issues[i];
            proof {
                assert(self@.issues[i as int] == issue@);
            }
            if issue.severity == severity {
                out.push(issue);
                proof {
                    assert(issue_refs(out@) =~= before.push(issue@));
                }
            }
            i = i + 1;
        }
        out
    }

    /// The errors, in order.
    pub fn errors(&self) -> (r: Vec<&HierarchyIssue>)
        ensures
            issue_refs(r@) == with_severity(
                self@.issues,
                self@.issues.len() as int,
                IssueSeverity::Error,
            ),
    {
        self.of_severity(IssueSeverity::Error)
    }

    /// The warnings, in order.
    pub fn warnings(&self) -> (r: Vec<&HierarchyIssue>)
        ensures
            issue_refs(r@) == with_severity(
                self@.issues,
                self@.issues.len() as int,
                IssueSeverity::Warning,
            ),
    {
        self.of_severity(IssueSeverity::Warning)
    }
}

// ---------------------------------------------------------------- findings

/// An error at an object.
pub open spec fn error_at(id: ObjectId, message: Seq<char>) -> IssueV {
    IssueV { object_id: Some(id), severity: IssueSeverity::Error, message }
}

/// An error of the document as a whole.
pub open spec fn error_throughout(message: Seq<char>) -> IssueV {
    IssueV { object_id: None, severity: IssueSeverity::Error, message }
}

/// A warning at an object.
pub open spec fn warning_at(id: ObjectId, message: Seq<char>) -> IssueV {
    IssueV { object_id: Some(id), severity: IssueSeverity::Warning, message }
}

/// A message that names an object.
pub open spec fn about(head: Seq<char>, id: ObjectId, tail: Seq<char>) -> Seq<char> {
    head + id_text(id) + tail
}

fn message_about(head: &str, id: ObjectId, tail: &str) -> (r: String)
    ensures
        r@ == about(head@, id, tail@),
{
    cat(cat_id(head.to_owned(), id), tail)
}

/// What a walk through a page tree has come to.
pub struct WalkV {
    /// The numbers of the nodes that were visited.
    pub seen: Set<u32>,
    /// How many pages were found; the count stops at the largest `usize`.
    pub leaves: usize,
    pub max_depth: usize,
    pub issues: Seq<IssueV>,
}

impl WalkV {
    /// With one more issue.
    pub open spec fn with_issue(self, issue: IssueV) -> WalkV {
        WalkV { issues: self.issues.push(issue), ..self }
    }

    /// With one more page.
    pub open spec fn with_leaf(self) -> WalkV {
        WalkV {
            leaves: if self.leaves == usize::MAX {
                self.leaves
            } else {
                (self.leaves + 1) as usize
            },
            ..self
        }
    }
}

/// What a walk through a page tree has come to.
struct Walk {
    seen: HashSet<u32>,
    leaves: usize,
    max_depth: usize,
    issues: Vec<HierarchyIssue>,
}

impl View for Walk {
    type V = WalkV;

    closed spec fn view(&self) -> WalkV {
        WalkV {
            seen: self.seen@,
            leaves: self.leaves,
            max_depth: self.max_depth,
            issues: issues_view(self.issues@),
        }
    }
}

impl Walk {
    fn error(&mut self, id: ObjectId, message: String)
        ensures
            final(self)@ == old(self)@.with_issue(error_at(id, message@)),
    {
        let ghost before = self@.issues;
        let issue: HierarchyIssue = HierarchyIssue {
            object_id: Some(id),
            severity: IssueSeverity::Error,
            message,
        };
        self.issues.push(issue);
        proof {
            assert(self@.issues =~= before.push(error_at(id, message@)));
        }
    }

    fn error_throughout(&mut self, message: String)
        ensures
            final(self)@ == old(self)@.with_issue(error_throughout(message@)),
    {
        let ghost before = self@.issues;
        let issue: HierarchyIssue = HierarchyIssue {
            object_id: None,
            severity: IssueSeverity::Error,
            message,
        };
        self.issues.push(issue);
        proof {
            assert(self@.issues =~= before.push(error_throughout(message@)));
        }
    }

    fn warning(&mut self, id: ObjectId, message: String)
        ensures
            final(self)@ == old(self)@.with_issue(warning_at(id, message@)),
    {
        let ghost before = self@.issues;
        let issue: HierarchyIssue = HierarchyIssue {
            object_id: Some(id),
            severity: IssueSeverity::Warning,
            message,
        };
        self.issues.push(issue);
        proof {
            assert(self@.issues =~= before.push(warning_at(id, message@)));
        }
    }

    fn leaf(&mut self)
        ensures
            final(self)@ == old(self)@.with_leaf(),
    {
        if self.leaves < usize::MAX {
            self.leaves = self.leaves + 1;
        }
    }
}

// ------------------------------------------------------------------- pages

/// The checks of a page: its parent, and a page size of its own.
pub open spec fn leaf_checked(d: DictV, id: ObjectId, parent: Option<ObjectId>, w: WalkV) -> WalkV {
    let parent_checked = match (dict_get(d, "Parent"@), parent) {
        (Some(ObjV::Reference(actual)), Some(expected)) => if actual == expected {
            w
        } else {
            w.with_issue(
                warning_at(
                    id,
                    about("/Page "@, id, " /Parent "@) + id_text(actual)
                        + " doesn't match DFS parent "@ + id_text(expected),
                ),
            )
        },
        (Some(o), _) => w.with_issue(
            warning_at(
                id,
                about("/Page "@, id, " /Parent must be an indirect reference"@) + got(o),
            ),
        ),
        (None, _) => w.with_issue(
            warning_at(
                id,
                about("/Page "@, id, " missing /Parent (§7.7.3.3 Table 30 — required)"@),
            ),
        ),
    };
    if dict_get(d, "MediaBox"@) is None {
        parent_checked.with_issue(
            warning_at(
                id,
                about(
                    "/Page "@,
                    id,
                    " has no directly-attached /MediaBox (inheritance may still satisfy §7.7.3.3)"@,
                ),
            ),
        )
    } else {
        parent_checked
    }
}

fn check_page_leaf(d: &Dict, id: ObjectId, parent: Option<ObjectId>, w: &mut Walk)
    ensures
        final(w)@ == leaf_checked(d@, id, parent, old(w)@),
{
    match (d.get("Parent"), parent) {
        (Some(Object::Reference(actual)), Some(expected)) => {
            if *actual != expected {
                let m: String = cat_id(message_about("/Page ", id, " /Parent "), *actual);
                let m: String = cat_id(cat(m, " doesn't match DFS parent "), expected);
                w.warning(id, m);
            }
        },
        (Some(o), _) => {
            let m: String = message_about("/Page ", id, " /Parent must be an indirect reference");
            w.warning(id, cat_got(m, o));
        },
        (None, _) => {
            w.warning(
                id,
                message_about("/Page ", id, " missing /Parent (§7.7.3.3 Table 30 — required)"),
            );
        },
    }
    if d.get("MediaBox").is_none() {
        w.warning(
            id,
            message_about(
                "/Page ",
                id,
                " has no directly-attached /MediaBox (inheritance may still satisfy §7.7.3.3)",
            ),
        );
    }
}

// ------------------------------------------------------- the page tree

/// How deep a page tree may be.
pub const MAX_TREE_DEPTH: usize = 32;

/// The check of the parent of an inner node; the root has none.
pub open spec fn parent_checked(
    d: DictV,
    id: ObjectId,
    parent: Option<ObjectId>,
    w: WalkV,
) -> WalkV {
    match parent {
        None => w,
        Some(expected) => match dict_get(d, "Parent"@) {
            Some(ObjV::Reference(actual)) => if actual == expected {
                w
            } else {
                w.with_issue(
                    warning_at(
                        id,
                        about("/Pages "@, id, " /Parent points to "@) + id_text(actual)
                            + " but DFS parent is "@ + id_text(expected),
                    ),
                )
            },
            Some(o) => w.with_issue(
                warning_at(
                    id,
                    about("/Pages "@, id, " /Parent must be an indirect reference"@) + got(o),
                ),
            ),
            None => w.with_issue(
                warning_at(
                    id,
                    about(
                        "/Pages "@,
                        id,
                        " missing /Parent (§7.7.3.2 Table 29 — required on non-root nodes)"@,
                    ),
                ),
            ),
        },
    }
}

fn check_parent(d: &Dict, id: ObjectId, parent: Option<ObjectId>, w: &mut Walk)
    ensures
        final(w)@ == parent_checked(d@, id, parent, old(w)@),
{
    if let Some(expected) = parent {
        match d.get("Parent") {
            Some(Object::Reference(actual)) => {
                if *actual != expected {
                    let m: String = cat_id(
                        message_about("/Pages ", id, " /Parent points to "),
                        *actual,
                    );
                    let m: String = cat_id(cat(m, " but DFS parent is "), expected);
                    w.warning(id, m);
                }
            },
            Some(o) => {
                let m: String = message_about(
                    "/Pages ",
                    id,
                    " /Parent must be an indirect reference",
                );
                w.warning(id, cat_got(m, o));
            },
            None => {
                w.warning(
                    id,
                    message_about(
                        "/Pages ",
                        id,
                        " missing /Parent (§7.7.3.2 Table 29 — required on non-root nodes)",
                    ),
                );
            },
        }
    }
}

/// The check of the count of an inner node below which `found` pages were found.
pub open spec fn count_checked(d: DictV, id: ObjectId, found: int, w: WalkV) -> WalkV {
    match dict_get(d, "Count"@) {
        Some(ObjV::Integer(n)) => if n == found {
            w
        } else {
            w.with_issue(
                warning_at(
                    id,
                    about("/Pages "@, id, " /Count = "@) + dec(n as int) + " but DFS found "@ + dec(
                        found,
                    ) + " leaves"@,
                ),
            )
        },
        Some(o) => w.with_issue(
            warning_at(id, about("/Pages "@, id, " /Count must be an integer"@) + got(o)),
        ),
        None => w.with_issue(
            warning_at(
                id,
                about("/Pages "@, id, " missing required /Count (§7.7.3.2 Table 29)"@),
            ),
        ),
    }
}

fn check_count(d: &Dict, id: ObjectId, found: usize, w: &mut Walk)
    ensures
        final(w)@ == count_checked(d@, id, found as int, old(w)@),
{
    match d.get("Count") {
        Some(Object::Integer(n)) => {
            let same: bool = *n >= 0 && *n as u64 == found as u64;
            if !same {
                let m: String = cat_int(message_about("/Pages ", id, " /Count = "), *n);
                let m: String = cat_nat(cat(m, " but DFS found "), found as u64);
                w.warning(id, cat(m, " leaves"));
            }
        },
        Some(o) => {
            let m: String = message_about("/Pages ", id, " /Count must be an integer");
            w.warning(id, cat_got(m, o));
        },
        None => {
            w.warning(
                id,
                message_about("/Pages ", id, " missing required /Count (§7.7.3.2 Table 29)"),
            );
        },
    }
}

/// The walk through node `id` of a page tree and all below it.
pub open spec fn walked(
    doc: DocV,
    id: ObjectId,
    parent: Option<ObjectId>,
    depth: int,
    w: WalkV,
) -> WalkV
    decreases MAX_TREE_DEPTH + 1 - depth, 2int, 0int,
{
    let deeper = WalkV {
        max_depth: if depth > w.max_depth {
            depth as usize
        } else {
            w.max_depth
        },
        ..w
    };
    if depth > MAX_TREE_DEPTH {
        deeper.with_issue(
            error_at(
                id,
                about("Pages-tree depth exceeded 32 at node "@, id, " — refusing to recurse"@),
            ),
        )
    } else if w.seen.contains(id.number) {
        deeper.with_issue(
            error_at(id, about("Pages-tree cycle: node "@, id, " visited twice (§7.7.3)"@)),
        )
    } else {
        let here = WalkV { seen: w.seen.insert(id.number), ..deeper };
        match doc.resolve(id) {
            Err(e) => here.with_issue(
                error_at(id, about("Pages-tree node "@, id, " unresolvable: "@) + e),
            ),
            Ok(ObjV::Dict(d)) => match dict_name(d, "Type"@) {
                Some(t) => if t == "Page"@ {
                    leaf_checked(d, id, parent, root_checked(id, parent, here.with_leaf()))
                } else if t == "Pages"@ {
                    node_walked(doc, d, id, parent, depth, here)
                } else {
                    here.with_issue(
                        error_at(
                            id,
                            about("Pages-tree node "@, id, " has unrecognised /Type /"@) + t
                                + " (expected /Pages or /Page)"@,
                        ),
                    )
                },
                None => node_walked(
                    doc,
                    d,
                    id,
                    parent,
                    depth,
                    here.with_issue(
                        warning_at(
                            id,
                            about(
                                "Pages-tree node "@,
                                id,
                                " missing /Type (§7.7.3.2 Table 29 — required)"@,
                            ),
                        ),
                    ),
                ),
            },
            Ok(_) => here.with_issue(
                error_at(id, about("Pages-tree node "@, id, " is not a dictionary"@)),
            ),
        }
    }
}

/// A page in the place of the root of the page tree is an error.
pub open spec fn root_checked(id: ObjectId, parent: Option<ObjectId>, w: WalkV) -> WalkV {
    if parent is None {
        w.with_issue(
            error_at(
                id,
                about("Pages-tree root "@, id, " must be a /Pages node (§7.7.3 Table 29)"@),
            ),
        )
    } else {
        w
    }
}

/// The walk through an inner node and all below it.
pub open spec fn node_walked(
    doc: DocV,
    d: DictV,
    id: ObjectId,
    parent: Option<ObjectId>,
    depth: int,
    w: WalkV,
) -> WalkV
    decreases MAX_TREE_DEPTH + 1 - depth, 1int, 0int,
{
    let before = parent_checked(d, id, parent, w);
    match dict_get(d, "Kids"@) {
        Some(ObjV::Array(kids)) => {
            let after = kids_walked(doc, id, kids, kids.len() as int, depth, before);
            count_checked(d, id, after.leaves - before.leaves, after)
        },
        Some(o) => before.with_issue(
            error_at(id, about("/Pages "@, id, " /Kids must be an array"@) + got(o)),
        ),
        None => before.with_issue(
            error_at(id, about("/Pages "@, id, " missing required /Kids"@)),
        ),
    }
}

/// The walk through the first `n` kids of an inner node.
pub open spec fn kids_walked(
    doc: DocV,
    id: ObjectId,
    kids: Seq<ObjV>,
    n: int,
    depth: int,
    w: WalkV,
) -> WalkV
    decreases MAX_TREE_DEPTH + 1 - depth, 0int, n,
{
    if n <= 0 || n > kids.len() || depth > MAX_TREE_DEPTH {
        w
    } else {
        let before = kids_walked(doc, id, kids, n - 1, depth, w);
        match kids[n - 1] {
            ObjV::Reference(kid) => walked(doc, kid, Some(id), depth + 1, before),
            o => before.with_issue(
                error_at(
                    id,
                    about("/Pages "@, id, " /Kids entry must be an indirect reference"@) + got(o),
                ),
            ),
        }
    }
}

fn walk_pages_node(
    reader: &mut DocumentReader,
    id: ObjectId,
    parent: Option<ObjectId>,
    depth: usize,
    w: &mut Walk,
)
    requires
        old(reader).wf(),
        depth <= MAX_TREE_DEPTH + 1,
    ensures
        final(reader).wf(),
        final(reader).doc() == old(reader).doc(),
        final(w)@ == walked(old(reader).doc(), id, parent, depth as int, old(w)@),
        final(w)@.leaves >= old(w)@.leaves,
    decreases MAX_TREE_DEPTH + 1 - depth, 1int,
{
    if depth > w.max_depth {
        w.max_depth = depth;
    }
    if depth > MAX_TREE_DEPTH {
        w.error(
            id,
            message_about("Pages-tree depth exceeded 32 at node ", id, " — refusing to recurse"),
        );
        return;
    }
    if w.seen.contains(&id.number) {
        w.error(id, message_about("Pages-tree cycle: node ", id, " visited twice (§7.7.3)"));
        return;
    }
    w.seen.insert(id.number);
    let d: Dict = match reader.resolve(id) {
        Err(e) => {
            let reason: String = e.to_string();
            w.error(
                id,
                cat(message_about("Pages-tree node ", id, " unresolvable: "), reason.as_str()),
            );
            return;
        },
        Ok(Object::Dict(d)) => d,
        Ok(_) => {
            w.error(id, message_about("Pages-tree node ", id, " is not a dictionary"));
            return;
        },
    };
    match d.get("Type") {
        Some(Object::Name(t)) => {
            if same_text(t.as_str(), "Page") {
                w.leaf();
                if parent.is_none() {
                    w.error(
                        id,
                        message_about(
                            "Pages-tree root ",
                            id,
                            " must be a /Pages node (§7.7.3 Table 29)",
                        ),
                    );
                }
                check_page_leaf(&d, id, parent, w);
            } else if same_text(t.as_str(), "Pages") {
                check_pages_node(reader, &d, id, parent, depth, w);
            } else {
                let m: String = cat(
                    message_about("Pages-tree node ", id, " has unrecognised /Type /"),
                    t.as_str(),
                );
                w.error(id, cat(m, " (expected /Pages or /Page)"));
            }
        },
        _ => {
            w.warning(
                id,
                message_about(
                    "Pages-tree node ",
                    id,
                    " missing /Type (§7.7.3.2 Table 29 — required)",
                ),
            );
            check_pages_node(reader, &d, id, parent, depth, w);
        },
    }
}

fn check_pages_node(
    reader: &mut DocumentReader,
    d: &Dict,
    id: ObjectId,
    parent: Option<ObjectId>,
    depth: usize,
    w: &mut Walk,
)
    requires
        old(reader).wf(),
        depth <= MAX_TREE_DEPTH,
    ensures
        final(reader).wf(),
        final(reader).doc() == old(reader).doc(),
        final(w)@ == node_walked(old(reader).doc(), d@, id, parent, depth as int, old(w)@),
        final(w)@.leaves >= old(w)@.leaves,
    decreases MAX_TREE_DEPTH + 1 - depth, 0int,
{
    let ghost doc = reader.doc();
    check_parent(d, id, parent, w);
    let kids: &Vec<Object> = match d.get("Kids") {
        Some(Object::Array(kids)) => kids,
        Some(o) => {
            let m: String = message_about("/Pages ", id, " /Kids must be an array");
            w.error(id, cat_got(m, o));
            return;
        },
        None => {
            w.error(id, message_about("/Pages ", id, " missing required /Kids"));
            return;
        },
    };
    proof {
        lemma_array_view(*kids);
    }
    let ghost view = objs_view(kids@);
    let ghost before = w@;
    let leaves_before: usize = w.leaves;
    let mut i: usize = 0;
    while i < kids.len()
        invariant
            i <= kids@.len(),
            view == objs_view(kids@),
            reader.wf(),
            reader.doc() == doc,
            depth <= MAX_TREE_DEPTH,
            w@ == kids_walked(doc, id, view, i as int, depth as int, before),
            w@.leaves >= leaves_before,
        decreases kids.len() - i,
    {
        proof {
            assert(view[i as int] == kids@[i as int]@);
        }
        match &kids[i] {
            Object::Reference(kid) => {
                walk_pages_node(reader, *kid, Some(id), depth + 1, w);
            },
            o => {
                let m: String = message_about(
                    "/Pages ",
                    id,
                    " /Kids entry must be an indirect reference",
                );
                w.error(id, cat_got(m, o));
            },
        }
        i = i + 1;
    }
    let found: usize = w.leaves - leaves_before;
    check_count(d, id, found, w);
}

// ----------------------------------------------------------- the document

/// The issues of the type of a catalog.
pub open spec fn catalog_type_issues(root: ObjectId, catalog: DictV) -> Seq<IssueV> {
    match dict_get(catalog, "Type"@) {
        Some(o) => if o == ObjV::Name("Catalog"@) {
            Seq::empty()
        } else {
            seq![
                error_at(
                    root,
                    "Catalog /Type must be /Catalog (§7.7.2 Table 28) — got "@ + obj_text(o),
                ),
            ]
        },
        None => seq![error_at(root, "Catalog missing /Type entry (§7.7.2 Table 28)"@)],
    }
}

/// What a walk through the page tree with this root comes to, behind issues
/// that were found before.
pub open spec fn tree_walk(doc: DocV, root: ObjectId, issues: Seq<IssueV>) -> WalkV {
    walked(doc, root, None, 0, WalkV { seen: Set::empty(), leaves: 0, max_depth: 0, issues })
}

/// The report on a catalog.
pub open spec fn catalog_report(doc: DocV, root: ObjectId, catalog: DictV) -> ReportV {
    let issues = catalog_type_issues(root, catalog);
    match dict_get(catalog, "Pages"@) {
        Some(ObjV::Reference(pages)) => {
            let w = tree_walk(doc, pages, issues);
            ReportV {
                page_count: w.leaves,
                max_depth: w.max_depth,
                issues: if w.leaves == 0 {
                    w.issues.push(
                        error_at(pages, "Pages tree contained no Page leaves (§7.7.3.3)"@),
                    )
                } else {
                    w.issues
                },
            }
        },
        Some(o) => ReportV {
            page_count: 0,
            max_depth: 0,
            issues: issues.push(
                error_at(
                    root,
                    "Catalog /Pages must be an indirect reference (§7.7.2 Table 28) — got "@
                        + obj_text(o),
                ),
            ),
        },
        None => ReportV {
            page_count: 0,
            max_depth: 0,
            issues: issues.push(
                error_throughout("Catalog missing required /Pages entry (§7.7.2 Table 28)"@),
            ),
        },
    }
}

/// The report on a document. There is none only where the catalog cannot be
/// read; that the trailer names no catalog is an error in the report.
pub open spec fn document_report(doc: DocV) -> Result<ReportV, Seq<char>> {
    match doc.xref.root() {
        Err(e) => Ok(
            ReportV { page_count: 0, max_depth: 0, issues: seq![error_throughout(e)] },
        ),
        Ok(root) => match doc.resolve(root) {
            Err(e) => Err(e),
            Ok(ObjV::Dict(catalog)) => Ok(catalog_report(doc, root, catalog)),
            Ok(_) => Ok(
                ReportV {
                    page_count: 0,
                    max_depth: 0,
                    issues: seq![
                        error_at(
                            root,
                            "Catalog (/Root) must be a dictionary (§7.7.2 Table 28)"@,
                        ),
                    ],
                },
            ),
        },
    }
}

/// Walk through the catalog, the page tree and the pages of a document, and
/// collect all that is amiss.
pub fn verify_hierarchy(reader: &mut DocumentReader) -> (r: Result<HierarchyReport, PdfError>)
    requires
        old(reader).wf(),
    ensures
        final(reader).wf(),
        final(reader).doc() == old(reader).doc(),
        match r {
            Ok(report) => document_report(old(reader).doc()) == Ok::<ReportV, Seq<char>>(report@),
            Err(e) => document_report(old(reader).doc()) == Err::<ReportV, Seq<char>>(e@),
        },
{
    let ghost doc = reader.doc();
    let mut w: Walk = Walk { seen: HashSet::new(), leaves: 0, max_depth: 0, issues: Vec::new() };
    proof {
        assert(w@.issues =~= Seq::empty());
        assert(w@.seen =~= Set::empty());
    }
    let root: ObjectId = match reader.xref().root() {
        Ok(id) => id,
        Err(e) => {
            let reason: String = e.to_string();
            w.error_throughout(reason);
            let report: HierarchyReport = HierarchyReport {
                page_count: 0,
                max_depth: 0,
                issues: w.issues,
            };
            proof {
                assert(report@.issues =~= seq![error_throughout(e@)]);
            }
            return Ok(report);
        },
    };
    let catalog: Dict = match reader.resolve(root) {
        Err(e) => {
            return Err(e);
        },
        Ok(Object::Dict(d)) => d,
        Ok(_) => {
            w.error(root, "Catalog (/Root) must be a dictionary (§7.7.2 Table 28)".to_owned());
            let report: HierarchyReport = HierarchyReport {
                page_count: 0,
                max_depth: 0,
                issues: w.issues,
            };
            proof {
                assert(report@.issues =~= seq![
                    error_at(root, "Catalog (/Root) must be a dictionary (§7.7.2 Table 28)"@),
                ]);
            }
            return Ok(report);
        },
    };
    match catalog.get("Type") {
        Some(o) => {
            let right: bool = match o {
                Object::Name(t) => same_text(t.as_str(), "Catalog"),
                _ => false,
            };
            if !right {
                let m: String =
                    "Catalog /Type must be /Catalog (§7.7.2 Table 28) — got ".to_owned();
                w.error(root, cat_object(m, o));
            }
        },
        None => {
            w.error(root, "Catalog missing /Type entry (§7.7.2 Table 28)".to_owned());
        },
    }
    proof {
        assert(w@.issues =~= catalog_type_issues(root, catalog@));
    }
    let pages: ObjectId = match catalog.get("Pages") {
        Some(Object::Reference(id)) => *id,
        Some(o) => {
            let m: String =
                "Catalog /Pages must be an indirect reference (§7.7.2 Table 28) — got ".to_owned();
            w.error(root, cat_object(m, o));
            return Ok(HierarchyReport { page_count: 0, max_depth: 0, issues: w.issues });
        },
        None => {
            w.error_throughout(
                "Catalog missing required /Pages entry (§7.7.2 Table 28)".to_owned(),
            );
            return Ok(HierarchyReport { page_count: 0, max_depth: 0, issues: w.issues });
        },
    };
    walk_pages_node(reader, pages, None, 0, &mut w);
    if w.leaves == 0 {
        w.error(pages, "Pages tree contained no Page leaves (§7.7.3.3)".to_owned());
    }
    Ok(HierarchyReport { page_count: w.leaves, max_depth: w.max_depth, issues: w.issues })
}

impl<'a> DocumentReader<'a> {
    /// Walk through the catalog, the page tree and the pages, and collect all
    /// that is amiss.
    pub fn verify_hierarchy(&mut self) -> (r: Result<HierarchyReport, PdfError>)
        requires
            old(self).wf(),
        ensures
            final(self).wf(),
            final(self).doc() == old(self).doc(),
            match r {
                Ok(report) => document_report(old(self).doc()) == Ok::<ReportV, Seq<char>>(
                    report@,
                ),
                Err(e) => document_report(old(self).doc()) == Err::<ReportV, Seq<char>>(e@),
            },
    {
        verify_hierarchy(self)
    }
}

// ------------------------------------------------------------------- laws

/// What holds of two states of one walk: issues and visited nodes are only
/// added, and the depth stays within one of the limit.
pub open spec fn grown(a: WalkV, b: WalkV) -> bool {
    &&& a.seen.subset_of(b.seen)
    &&& a.leaves <= b.leaves
    &&& a.max_depth <= b.max_depth
    &&& b.max_depth <= MAX_TREE_DEPTH + 1 || b.max_depth == a.max_depth
    &&& a.issues.len() <= b.issues.len()
    &&& b.issues.take(a.issues.len() as int) =~= a.issues
}

proof fn lemma_grown_trans(a: WalkV, b: WalkV, c: WalkV)
    requires
        grown(a, b),
        grown(b, c),
    ensures
        grown(a, c),
{
    assert forall|i: int| 0 <= i < a.issues.len() implies c.issues[i] == a.issues[i] by {
        assert(b.issues.take(a.issues.len() as int)[i] == a.issues[i]);
        assert(c.issues.take(b.issues.len() as int)[i] == b.issues[i]);
    }
}

proof fn lemma_leaf_grown(d: DictV, id: ObjectId, parent: Option<ObjectId>, w: WalkV)
    ensures
        grown(w, leaf_checked(d, id, parent, w)),
        grown(w, parent_checked(d, id, parent, w)),
        forall|found: int| grown(w, #[trigger] count_checked(d, id, found, w)),
{
}

/// A walk through the page tree only adds to what was found before it, and
/// goes no deeper than one level below the limit.
pub proof fn law_walk_only_adds(
    doc: DocV,
    id: ObjectId,
    parent: Option<ObjectId>,
    depth: int,
    w: WalkV,
)
    requires
        0 <= depth <= MAX_TREE_DEPTH + 1,
    ensures
        grown(w, walked(doc, id, parent, depth, w)),
    decreases MAX_TREE_DEPTH + 1 - depth, 2int, 0int,
{
    let end = walked(doc, id, parent, depth, w);
    let deeper = WalkV {
        max_depth: if depth > w.max_depth {
            depth as usize
        } else {
            w.max_depth
        },
        ..w
    };
    let here = WalkV { seen: w.seen.insert(id.number), ..deeper };
    if depth <= MAX_TREE_DEPTH && !w.seen.contains(id.number) {
        if let Ok(ObjV::Dict(d)) = doc.resolve(id) {
            match dict_name(d, "Type"@) {
                Some(t) => {
                    if t == "Page"@ {
                        let r = root_checked(id, parent, here.with_leaf());
                        assert(grown(w, r));
                        lemma_leaf_grown(d, id, parent, r);
                        lemma_grown_trans(w, r, end);
                    } else if t == "Pages"@ {
                        lemma_node_grown(doc, d, id, parent, depth, here);
                        assert(grown(w, here));
                        lemma_grown_trans(w, here, end);
                    }
                },
                None => {
                    let m = about(
                        "Pages-tree node "@,
                        id,
                        " missing /Type (§7.7.3.2 Table 29 — required)"@,
                    );
                    let next = here.with_issue(warning_at(id, m));
                    lemma_node_grown(doc, d, id, parent, depth, next);
                    assert(grown(w, next));
                    lemma_grown_trans(w, next, end);
                },
            }
        }
    }
}

proof fn lemma_node_grown(
    doc: DocV,
    d: DictV,
    id: ObjectId,
    parent: Option<ObjectId>,
    depth: int,
    w: WalkV,
)
    requires
        0 <= depth <= MAX_TREE_DEPTH,
    ensures
        grown(w, node_walked(doc, d, id, parent, depth, w)),
    decreases MAX_TREE_DEPTH + 1 - depth, 1int, 0int,
{
    let before = parent_checked(d, id, parent, w);
    let end = node_walked(doc, d, id, parent, depth, w);
    lemma_leaf_grown(d, id, parent, w);
    match dict_get(d, "Kids"@) {
        Some(ObjV::Array(kids)) => {
            let after = kids_walked(doc, id, kids, kids.len() as int, depth, before);
            lemma_kids_grown(doc, id, kids, kids.len() as int, depth, before);
            lemma_leaf_grown(d, id, parent, after);
            lemma_grown_trans(w, before, after);
            lemma_grown_trans(w, after, end);
        },
        _ => {
            assert(grown(before, end));
            lemma_grown_trans(w, before, end);
        },
    }
}

proof fn lemma_kids_grown(
    doc: DocV,
    id: ObjectId,
    kids: Seq<ObjV>,
    n: int,
    depth: int,
    w: WalkV,
)
    requires
        0 <= depth <= MAX_TREE_DEPTH,
    ensures
        grown(w, kids_walked(doc, id, kids, n, depth, w)),
    decreases MAX_TREE_DEPTH + 1 - depth, 0int, n,
{
    if n > 0 && n <= kids.len() {
        let before = kids_walked(doc, id, kids, n - 1, depth, w);
        let end = kids_walked(doc, id, kids, n, depth, w);
        lemma_kids_grown(doc, id, kids, n - 1, depth, w);
        match kids[n - 1] {
            ObjV::Reference(kid) => {
                law_walk_only_adds(doc, kid, Some(id), depth + 1, before);
            },
            _ => {
                assert(grown(before, end));
            },
        }
        lemma_grown_trans(w, before, end);
    }
}

/// A node that is reached a second time is an error, and is not entered again.
pub proof fn law_cycle_is_error(
    doc: DocV,
    id: ObjectId,
    parent: Option<ObjectId>,
    depth: int,
    w: WalkV,
)
    requires
        0 <= depth <= MAX_TREE_DEPTH,
        w.seen.contains(id.number),
    ensures
        ({
            let end = walked(doc, id, parent, depth, w);
            &&& end.leaves == w.leaves
            &&& end.issues.len() == w.issues.len() + 1
            &&& end.issues.last().severity == IssueSeverity::Error
            &&& end.issues.last().object_id == Some(id)
        }),
{
}

/// A report without errors counts at least one page, and no node of the tree
/// lies below the limit.
pub proof fn law_valid_report(doc: DocV, report: ReportV)
    requires
        document_report(doc) == Ok::<ReportV, Seq<char>>(report),
        free_of_errors(report.issues),
    ensures
        report.page_count > 0,
        report.max_depth <= MAX_TREE_DEPTH + 1,
{
    let root = doc.xref.root()->Ok_0;
    match doc.resolve(root) {
        Ok(ObjV::Dict(catalog)) => {
            let issues = catalog_type_issues(root, catalog);
            match dict_get(catalog, "Pages"@) {
                Some(ObjV::Reference(pages)) => {
                    let w0 = WalkV { seen: Set::empty(), leaves: 0, max_depth: 0, issues };
                    law_walk_only_adds(doc, pages, None, 0, w0);
                    let w = tree_walk(doc, pages, issues);
                    if w.leaves == 0 {
                        assert(report.issues[w.issues.len() as int].severity
                            == IssueSeverity::Error);
                    }
                },
                _ => {
                    assert(report.issues[issues.len() as int].severity == IssueSeverity::Error);
                },
            }
        },
        _ => {
            assert(report.issues[0].severity == IssueSeverity::Error);
        },
    }
}

/// The errors of a report are none exactly where it is free of them.
pub proof fn law_errors_of_valid(issues: Seq<IssueV>)
    ensures
        (with_severity(issues, issues.len() as int, IssueSeverity::Error).len() == 0)
            == free_of_errors(issues),
{
    lemma_errors_among(issues, issues.len() as int);
}

proof fn lemma_errors_among(issues: Seq<IssueV>, n: int)
    requires
        0 <= n <= issues.len(),
    ensures
        (with_severity(issues, n, IssueSeverity::Error).len() == 0) == (forall|i: int|
            0 <= i < n ==> (#[trigger] issues[i]).severity != IssueSeverity::Error),
    decreases n,
{
    if n > 0 {
        lemma_errors_among(issues, n - 1);
        if with_severity(issues, n, IssueSeverity::Error).len() == 0 {
            assert forall|i: int| 0 <= i < n implies (#[trigger] issues[i]).severity
                != IssueSeverity::Error by {
                if i < n - 1 {
                }
            }
        }
    }
}

/// Every issue is an error or a warning, and counted once.
pub proof fn law_issues_split(issues: Seq<IssueV>)
    ensures
        with_severity(issues, issues.len() as int, IssueSeverity::Error).len() + with_severity(
            issues,
            issues.len() as int,
            IssueSeverity::Warning,
        ).len() == issues.len(),
{
    lemma_split(issues, issues.len() as int);
}

proof fn lemma_split(issues: Seq<IssueV>, n: int)
    requires
        0 <= n <= issues.len(),
    ensures
        with_severity(issues, n, IssueSeverity::Error).len() + with_severity(
            issues,
            n,
            IssueSeverity::Warning,
        ).len() == n,
    decreases n,
{
    if n > 0 {
        lemma_split(issues, n - 1);
    }
}

} // verus!
