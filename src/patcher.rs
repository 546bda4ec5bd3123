//! The document patcher: install, uninstall and repair over the set of target
//! documents, each with its content (or the error that reading it gave) and
//! its backup.
use vstd::prelude::*;
use crate::injection::{build_injection, injection_text, insert_before_heads, inserted, HEAD_CLOSE};
use crate::markers::{is_patched, is_patched_text, strip_injection, stripped};
use crate::text::{chars_of, contains, contains_all, push_char};

verus! {

/// Suffix appended to a document's path to name its backup.
pub const BACKUP_SUFFIX: &'static str = ".uprooted.bak";

/// A target document as the patcher sees it.
pub struct Document {
    pub path: String,
    /// The text of the document, or why it could not be read.
    pub content: Result<String, String>,
    /// The saved original, if a backup file exists.
    pub backup: Option<String>,
}

/// The abstract state of a document.
pub struct DocState {
    pub path: Seq<char>,
    pub content: Result<Seq<char>, Seq<char>>,
    pub backup: Option<Seq<char>>,
}

impl View for Document {
    type V = DocState;

    open spec fn view(&self) -> DocState {
        DocState {
            path: self.path@,
            content: match self.content {
                Ok(c) => Ok(c@),
                Err(e) => Err(e@),
            },
            backup: match self.backup {
                Some(b) => Some(b@),
                None => None,
            },
        }
    }
}

/// Outcome of a patch operation.
pub struct PatchResult {
    pub success: bool,
    pub message: String,
    pub files_patched: Vec<String>,
}

pub open spec fn doc_states(ds: Seq<Document>) -> Seq<DocState> {
    ds.map_values(|d: Document| d@)
}

pub open spec fn paths(v: Seq<String>) -> Seq<Seq<char>> {
    v.map_values(|s: String| s@)
}

/// The path of a document's backup file.
pub open spec fn backup_path(path: Seq<char>) -> Seq<char> {
    path + BACKUP_SUFFIX@
}

pub fn backup_path_of(path: &str) -> (r: String)
    ensures
        r@ == backup_path(path@),
{
    let mut r = String::from_str(path);
    r.append(BACKUP_SUFFIX);
    r
}

/// Install on one readable document: a patched document is left alone; a
/// clean one gets a backup of its original unless one exists, and has the
/// injection put before each closing head tag.
pub open spec fn install_doc(d: DocState, inj: Seq<char>) -> DocState {
    match d.content {
        Ok(c) => if is_patched_text(c) {
            d
        } else {
            DocState {
                path: d.path,
                content: Ok(inserted(c, inj)),
                backup: if d.backup is Some {
                    d.backup
                } else {
                    Some(c)
                },
            }
        },
        Err(_) => d,
    }
}

/// Whether install reports the document as patched: it was clean and had a
/// closing head tag to insert before.
pub open spec fn install_reports(d: DocState) -> bool {
    match d.content {
        Ok(c) => !is_patched_text(c) && contains(c, HEAD_CLOSE@),
        Err(_) => false,
    }
}

/// The documents after install: each in turn, up to the first one that could
/// not be read, where install stops.
pub open spec fn install_docs(ds: Seq<DocState>, inj: Seq<char>) -> Seq<DocState>
    decreases ds.len(),
{
    if ds.len() == 0 || ds[0].content is Err {
        ds
    } else {
        seq![install_doc(ds[0], inj)] + install_docs(ds.subrange(1, ds.len() as int), inj)
    }
}

/// The paths that install reports, in order.
pub open spec fn install_patched(ds: Seq<DocState>) -> Seq<Seq<char>>
    decreases ds.len(),
{
    if ds.len() == 0 || ds[0].content is Err {
        Seq::empty()
    } else {
        (if install_reports(ds[0]) {
            seq![ds[0].path]
        } else {
            Seq::empty()
        }) + install_patched(ds.subrange(1, ds.len() as int))
    }
}

pub open spec fn all_readable(ds: Seq<DocState>) -> bool {
    forall|i: int| 0 <= i < ds.len() ==> ds[i].content is Ok
}

/// Uninstall on one document: a patched document is stripped in place; if
/// stripping changes nothing it is restored from its backup. Either way the
/// backup goes.
pub open spec fn uninstall_doc(d: DocState) -> DocState {
    match d.content {
        Ok(c) => if !is_patched_text(c) {
            d
        } else if stripped(c) != c {
            DocState { path: d.path, content: Ok(stripped(c)), backup: None }
        } else {
            match d.backup {
                Some(b) => DocState { path: d.path, content: Ok(b), backup: None },
                None => d,
            }
        },
        Err(_) => d,
    }
}

pub open spec fn uninstall_reports(d: DocState) -> bool {
    match d.content {
        Ok(c) => is_patched_text(c) && (stripped(c) != c || d.backup is Some),
        Err(_) => false,
    }
}

/// The paths that uninstall reports, in order.
pub open spec fn uninstall_restored(ds: Seq<DocState>) -> Seq<Seq<char>>
    decreases ds.len(),
{
    if ds.len() == 0 {
        Seq::empty()
    } else {
        uninstall_restored(ds.drop_last()) + if uninstall_reports(ds.last()) {
            seq![ds.last().path]
        } else {
            Seq::empty()
        }
    }
}

/// The first pass of repair: a patched document is stripped in place and the
/// stripped text becomes its backup.
pub open spec fn repair_doc(d: DocState) -> DocState {
    match d.content {
        Ok(c) => if is_patched_text(c) {
            DocState { path: d.path, content: Ok(stripped(c)), backup: Some(stripped(c)) }
        } else {
            d
        },
        Err(_) => d,
    }
}

/// The decimal digits of `n`.
pub open spec fn decimal(n: nat) -> Seq<char>
    decreases n,
{
    if n < 10 {
        seq![digit_char(n)]
    } else {
        decimal(n / 10).push(digit_char(n % 10))
    }
}

pub open spec fn digit_char(d: nat) -> char {
    if d == 0 {
        '0'
    } else if d == 1 {
        '1'
    } else if d == 2 {
        '2'
    } else if d == 3 {
        '3'
    } else if d == 4 {
        '4'
    } else if d == 5 {
        '5'
    } else if d == 6 {
        '6'
    } else if d == 7 {
        '7'
    } else if d == 8 {
        '8'
    } else {
        '9'
    }
}

fn digit(d: usize) -> (c: char)
    requires
        d < 10,
    ensures
        c == digit_char(d as nat),
{
    if d == 0 {
        '0'
    } else if d == 1 {
        '1'
    } else if d == 2 {
        '2'
    } else if d == 3 {
        '3'
    } else if d == 4 {
        '4'
    } else if d == 5 {
        '5'
    } else if d == 6 {
        '6'
    } else if d == 7 {
        '7'
    } else if d == 8 {
        '8'
    } else {
        '9'
    }
}

/// Appends the decimal digits of `n`.
pub fn push_decimal(out: &mut String, n: usize)
    ensures
        final(out)@ == old(out)@ + decimal(n as nat),
    decreases n,
{
    if n >= 10 {
        push_decimal(out, n / 10);
    }
    push_char(out, digit(n % 10));
    assert(final(out)@ =~= old(out)@ + decimal(n as nat));
}

pub open spec fn count_message(lead: Seq<char>, n: nat, tail: Seq<char>) -> Seq<char> {
    lead + decimal(n) + tail
}

fn count_message_of(lead: &str, n: usize, tail: &str) -> (r: String)
    ensures
        r@ == count_message(lead@, n as nat, tail@),
{
    let mut r = String::from_str(lead);
    push_decimal(&mut r, n);
    r.append(tail);
    r
}

pub open spec fn failure_message(lead: Seq<char>, path: Seq<char>, cause: Seq<char>) -> Seq<
    char,
> {
    lead + path + ": "@ + cause
}

/// `"<lead><path>: <cause>"`.
pub fn failure_message_of(lead: &str, path: &str, cause: &str) -> (r: String)
    ensures
        r@ == failure_message(lead@, path@, cause@),
{
    let mut r = String::from_str(lead);
    r.append(path);
    r.append(": ");
    r.append(cause);
    r
}

fn clone_string(s: &String) -> (r: String)
    ensures
        r@ == s@,
{
    s.clone()
}

proof fn lemma_install_docs_len(ds: Seq<DocState>, inj: Seq<char>)
    ensures
        install_docs(ds, inj).len() == ds.len(),
    decreases ds.len(),
{
    if ds.len() > 0 && ds[0].content is Ok {
        lemma_install_docs_len(ds.subrange(1, ds.len() as int), inj);
    }
}

/// Splits off the first document of a run.
proof fn lemma_unfold_first(ds: Seq<DocState>, i: int)
    requires
        0 <= i < ds.len(),
    ensures
        ds.subrange(i, ds.len() as int)[0] == ds[i],
        ds.subrange(i, ds.len() as int).subrange(1, ds.len() - i) =~= ds.subrange(
            i + 1,
            ds.len() as int,
        ),
{
}

/// Inserts the injection before every closing head tag of a clean readable
/// document and backs it up first; the patched one is reported.
fn install_one(d: &Document, inj: &Vec<char>, head: &Vec<char>) -> (r: (Document, bool))
    requires
        d.content is Ok,
        head@ == HEAD_CLOSE@,
    ensures
        r.0@ == install_doc(d@, inj@),
        r.1 == install_reports(d@),
{
    let c = match &d.content {
        Ok(c) => c,
        Err(_) => {
            return (Document { path: clone_string(&d.path), content: Ok(String::new()), backup: None }, false);
        },
    };
    if is_patched(c.as_str()) {
        let backup = match &d.backup {
            Some(b) => Some(clone_string(b)),
            None => None,
        };
        return (
            Document { path: clone_string(&d.path), content: Ok(clone_string(c)), backup },
            false,
        );
    }
    let backup = match &d.backup {
        Some(b) => Some(clone_string(b)),
        None => Some(clone_string(c)),
    };
    let v = chars_of(c.as_str());
    proof {
        reveal_strlit("</head>");
    }
    let has_head = contains_all(&v, head);
    let content = insert_before_heads(&v, inj);
    (Document { path: clone_string(&d.path), content: Ok(content), backup }, has_head)
}

/// Patches every clean target document in order, stopping at the first one
/// that cannot be read. With no target at all it fails and changes nothing.
pub fn install(docs: &mut Vec<Document>, settings_json: &str, asset_dir: &str, windows: bool) -> (r:
    PatchResult)
    ensures
        doc_states(final(docs)@) == install_docs(
            doc_states(old(docs)@),
            injection_text(settings_json@, asset_dir@, windows),
        ),
        paths(r.files_patched@) == install_patched(doc_states(old(docs)@)),
        r.success == (old(docs).len() > 0 && all_readable(doc_states(old(docs)@))),
        old(docs).len() == 0 ==> r.message@ == "No target HTML files found in profile directory."@,
        r.success ==> r.message@ == count_message(
            "Uprooted installed. "@,
            r.files_patched.len() as nat,
            " files patched."@,
        ),
        !r.success && old(docs).len() > 0 ==> exists|k: int|
            0 <= k < old(docs).len() && (forall|j: int|
                0 <= j < k ==> (#[trigger] old(docs)@[j]).content is Ok) && match (#[trigger] old(docs)@[k]).content {
                Ok(_) => false,
                Err(e) => r.message@ == failure_message(
                    "Failed to read "@,
                    old(docs)@[k].path@,
                    e@,
                ),
            },
{
    let injection = build_injection(settings_json, asset_dir, windows);
    let inj = chars_of(injection.as_str());
    run_install(docs, &inj)
}

fn run_install(docs: &mut Vec<Document>, inj: &Vec<char>) -> (r: PatchResult)
    ensures
        doc_states(final(docs)@) == install_docs(doc_states(old(docs)@), inj@),
        paths(r.files_patched@) == install_patched(doc_states(old(docs)@)),
        r.success == (old(docs).len() > 0 && all_readable(doc_states(old(docs)@))),
        old(docs).len() == 0 ==> r.message@ == "No target HTML files found in profile directory."@,
        r.success ==> r.message@ == count_message(
            "Uprooted installed. "@,
            r.files_patched.len() as nat,
            " files patched."@,
        ),
        !r.success && old(docs).len() > 0 ==> exists|k: int|
            0 <= k < old(docs).len() && (forall|j: int|
                0 <= j < k ==> (#[trigger] old(docs)@[j]).content is Ok) && match (#[trigger] old(docs)@[k]).content {
                Ok(_) => false,
                Err(e) => r.message@ == failure_message(
                    "Failed to read "@,
                    old(docs)@[k].path@,
                    e@,
                ),
            },
{
    let ghost ds0 = doc_states(docs@);
    if docs.len() == 0 {
        return PatchResult {
            success: false,
            message: String::from_str("No target HTML files found in profile directory."),
            files_patched: Vec::new(),
        };
    }
    let head = chars_of(HEAD_CLOSE);
    let mut patched: Vec<String> = Vec::new();
    let n = docs.len();
    let mut i: usize = 0;
    proof {
        assert(ds0.subrange(0, n as int) =~= ds0);
        assert(doc_states(docs@).subrange(0, 0) + install_docs(ds0, inj@) =~= install_docs(
            ds0,
            inj@,
        ));
        assert(paths(patched@) + install_patched(ds0) =~= install_patched(ds0));
    }
    while i < n
        invariant
            ds0 == doc_states(old(docs)@),
            n == docs.len() == ds0.len(),
            i <= n,
            head@ == HEAD_CLOSE@,
            forall|k: int| i <= k < n ==> docs@[k]@ == ds0[k],
            doc_states(docs@).subrange(0, i as int) + install_docs(
                ds0.subrange(i as int, n as int),
                inj@,
            ) == install_docs(ds0, inj@),
            paths(patched@) + install_patched(ds0.subrange(i as int, n as int))
                == install_patched(ds0),
            forall|k: int| 0 <= k < i ==> ds0[k].content is Ok,
            forall|k: int| 0 <= k < i ==> (#[trigger] old(docs)@[k]).content is Ok,
        decreases n - i,
    {
        proof {
            lemma_unfold_first(ds0, i as int);
        }
        if let Err(e) = &docs[i].content {
            let message = failure_message_of("Failed to read ", docs[i].path.as_str(), e.as_str());
            proof {
                let tail = ds0.subrange(i as int, n as int);
                assert(tail[0].content is Err);
                assert(install_docs(tail, inj@) == tail);
                assert(install_patched(tail) == Seq::<Seq<char>>::empty());
                assert(doc_states(docs@) =~= doc_states(docs@).subrange(0, i as int)
                    + ds0.subrange(i as int, n as int));
                assert(paths(patched@) + Seq::<Seq<char>>::empty() =~= paths(patched@));
                assert(!all_readable(ds0));
            }
            return PatchResult { success: false, message, files_patched: patched };
        }
        let (nd, reported) = install_one(&docs[i], inj, &head);
        if reported {
            let p = clone_string(&docs[i].path);
            patched.push(p);
        }
        let ghost before = doc_states(docs@);
        docs.set(i, nd);
        proof {
            let rest = ds0.subrange(i + 1, n as int);
            assert(doc_states(docs@).subrange(0, i + 1) =~= before.subrange(0, i as int).push(
                install_doc(ds0[i as int], inj@),
            ));
            assert(before.subrange(0, i as int) + (seq![install_doc(ds0[i as int], inj@)]
                + install_docs(rest, inj@)) =~= doc_states(docs@).subrange(0, i + 1)
                + install_docs(rest, inj@));
            if reported {
                assert(paths(patched@) =~= paths(patched@).drop_last().push(ds0[i as int].path));
            }
            assert(paths(patched@) + install_patched(rest) =~= install_patched(ds0));
        }
        i = i + 1;
    }
    proof {
        assert(doc_states(docs@).subrange(0, n as int) =~= doc_states(docs@));
        assert(install_docs(ds0.subrange(n as int, n as int), inj@) =~= Seq::empty());
        assert(doc_states(docs@) + Seq::<DocState>::empty() =~= doc_states(docs@));
        assert(paths(patched@) + Seq::<Seq<char>>::empty() =~= paths(patched@));
    }
    let count = patched.len();
    PatchResult {
        success: true,
        message: count_message_of("Uprooted installed. ", count, " files patched."),
        files_patched: patched,
    }
}

pub open spec fn repaired(ds: Seq<DocState>) -> Seq<DocState> {
    ds.map_values(|d: DocState| repair_doc(d))
}

fn clone_backup(b: &Option<String>) -> (r: Option<String>)
    ensures
        match (r, b) {
            (Some(x), Some(y)) => x@ == y@,
            (None, None) => true,
            _ => false,
        },
{
    match b {
        Some(x) => Some(clone_string(x)),
        None => None,
    }
}

/// Uninstall on one document, and whether it counts as restored.
fn uninstall_one(d: &Document) -> (r: (Document, bool))
    ensures
        r.0@ == uninstall_doc(d@),
        r.1 == uninstall_reports(d@),
{
    let path = clone_string(&d.path);
    let c = match &d.content {
        Ok(c) => c,
        Err(e) => {
            return (
                Document { path, content: Err(clone_string(e)), backup: clone_backup(&d.backup) },
                false,
            );
        },
    };
    if !is_patched(c.as_str()) {
        return (
            Document { path, content: Ok(clone_string(c)), backup: clone_backup(&d.backup) },
            false,
        );
    }
    let cleaned = strip_injection(c.as_str());
    if cleaned != *c {
        return (Document { path, content: Ok(cleaned), backup: None }, true);
    }
    match &d.backup {
        Some(b) => (Document { path, content: Ok(clone_string(b)), backup: None }, true),
        None => (Document { path, content: Ok(clone_string(c)), backup: None }, false),
    }
}

/// No document before index `k` failed to read.
pub open spec fn readable_before(ds: Seq<DocState>, k: int) -> bool {
    forall|j: int| 0 <= j < k ==> (#[trigger] ds[j]).content is Ok
}

/// Removes the injection from every patched document, in order: stripped in
/// place where that changes the text, restored from the backup otherwise;
/// the backup is removed in both cases. Clean documents are left alone. The
/// first document that cannot be read stops the run: it and every later
/// document stay as they were, and the failure names it.
pub fn uninstall(docs: &mut Vec<Document>) -> (r: PatchResult)
    ensures
        final(docs).len() == old(docs).len(),
        forall|k: int|
            0 <= k < old(docs).len() ==> #[trigger] final(docs)@[k]@ == if readable_before(
                doc_states(old(docs)@),
                k + 1,
            ) {
                uninstall_doc(old(docs)@[k]@)
            } else {
                old(docs)@[k]@
            },
        r.success == all_readable(doc_states(old(docs)@)),
        r.success ==> paths(r.files_patched@) == uninstall_restored(doc_states(old(docs)@)),
        r.success ==> r.message@ == count_message(
            "Uprooted uninstalled. "@,
            r.files_patched.len() as nat,
            " files restored."@,
        ),
        !r.success ==> exists|k: int|
            0 <= k < old(docs).len() && readable_before(doc_states(old(docs)@), k) && paths(
                r.files_patched@,
            ) == uninstall_restored(doc_states(old(docs)@).subrange(0, k)) && match (
            #[trigger] old(docs)@[k]).content {
                Ok(_) => false,
                Err(e) => r.message@ == failure_message(
                    "Failed to read "@,
                    old(docs)@[k].path@,
                    e@,
                ),
            },
{
    let ghost ds0 = doc_states(docs@);
    let mut restored: Vec<String> = Vec::new();
    let n = docs.len();
    let mut i: usize = 0;
    while i < n
        invariant
            ds0 == doc_states(old(docs)@),
            n == docs.len() == ds0.len(),
            i <= n,
            readable_before(ds0, i as int),
            forall|k: int| 0 <= k < i ==> #[trigger] docs@[k]@ == uninstall_doc(ds0[k]),
            forall|k: int| i <= k < n ==> #[trigger] docs@[k]@ == ds0[k],
            paths(restored@) == uninstall_restored(ds0.subrange(0, i as int)),
        decreases n - i,
    {
        if let Err(e) = &docs[i].content {
            let message = failure_message_of("Failed to read ", docs[i].path.as_str(), e.as_str());
            proof {
                assert(docs@[i as int]@ == ds0[i as int]);
                assert(ds0[i as int].content is Err);
                assert(!all_readable(ds0));
                assert forall|k: int| 0 <= k < n implies #[trigger] docs@[k]@ == if readable_before(
                    ds0,
                    k + 1,
                ) {
                    uninstall_doc(ds0[k])
                } else {
                    ds0[k]
                } by {
                    if k >= i {
                        assert(!readable_before(ds0, k + 1)) by {
                            assert(ds0[i as int].content is Err);
                        }
                    } else {
                        assert forall|j: int| 0 <= j < k + 1 implies (#[trigger] ds0[j]).content is Ok by {
                        }
                    }
                }
            }
            return PatchResult { success: false, message, files_patched: restored };
        }
        let (nd, reported) = uninstall_one(&docs[i]);
        if reported {
            restored.push(clone_string(&docs[i].path));
        }
        docs.set(i, nd);
        proof {
            let pre = ds0.subrange(0, i + 1);
            assert(pre.drop_last() =~= ds0.subrange(0, i as int));
            assert(pre.last() == ds0[i as int]);
            if reported {
                assert(paths(restored@) =~= paths(restored@).drop_last().push(
                    ds0[i as int].path,
                ));
            } else {
                assert(uninstall_restored(pre) =~= uninstall_restored(ds0.subrange(0, i as int)));
            }
            assert(paths(restored@) =~= uninstall_restored(pre));
        }
        i = i + 1;
    }
    proof {
        assert(ds0.subrange(0, n as int) =~= ds0);
        assert forall|k: int| 0 <= k < n implies #[trigger] docs@[k]@ == if readable_before(
            ds0,
            k + 1,
        ) {
            uninstall_doc(ds0[k])
        } else {
            ds0[k]
        } by {
            assert forall|j: int| 0 <= j < k + 1 implies (#[trigger] ds0[j]).content is Ok by {}
        }
    }
    let count = restored.len();
    PatchResult {
        success: true,
        message: count_message_of("Uprooted uninstalled. ", count, " files restored."),
        files_patched: restored,
    }
}

/// The first pass of repair on one document.
fn repair_one(d: &Document) -> (r: Document)
    ensures
        r@ == repair_doc(d@),
{
    let path = clone_string(&d.path);
    match &d.content {
        Ok(c) => {
            if is_patched(c.as_str()) {
                let cleaned = strip_injection(c.as_str());
                Document { path, content: Ok(clone_string(&cleaned)), backup: Some(cleaned) }
            } else {
                Document { path, content: Ok(clone_string(c)), backup: clone_backup(&d.backup) }
            }
        },
        Err(e) => Document {
            path,
            content: Err(clone_string(e)),
            backup: clone_backup(&d.backup),
        },
    }
}

/// Strips every patched document in place, makes the stripped text its
/// backup, then installs afresh with the given settings.
pub fn repair(docs: &mut Vec<Document>, settings_json: &str, asset_dir: &str, windows: bool) -> (r:
    PatchResult)
    ensures
        doc_states(final(docs)@) == install_docs(
            repaired(doc_states(old(docs)@)),
            injection_text(settings_json@, asset_dir@, windows),
        ),
        paths(r.files_patched@) == install_patched(repaired(doc_states(old(docs)@))),
        r.success == (old(docs).len() > 0 && all_readable(repaired(doc_states(old(docs)@)))),
        old(docs).len() == 0 ==> r.message@ == "No target HTML files found in profile directory."@,
        r.success ==> r.message@ == count_message(
            "Uprooted installed. "@,
            r.files_patched.len() as nat,
            " files patched."@,
        ),
        !r.success && old(docs).len() > 0 ==> exists|k: int|
            0 <= k < old(docs).len() && readable_before(repaired(doc_states(old(docs)@)), k)
                && match (#[trigger] repaired(doc_states(old(docs)@))[k]).content {
                Ok(_) => false,
                Err(e) => r.message@ == failure_message(
                    "Failed to read "@,
                    repaired(doc_states(old(docs)@))[k].path,
                    e,
                ),
            },
{
    let ghost ds0 = doc_states(docs@);
    let n = docs.len();
    let mut i: usize = 0;
    while i < n
        invariant
            ds0 == doc_states(old(docs)@),
            n == docs.len() == ds0.len(),
            i <= n,
            forall|k: int| 0 <= k < i ==> #[trigger] docs@[k]@ == repair_doc(ds0[k]),
            forall|k: int| i <= k < n ==> #[trigger] docs@[k]@ == ds0[k],
        decreases n - i,
    {
        let nd = repair_one(&docs[i]);
        docs.set(i, nd);
        i = i + 1;
    }
    assert(doc_states(docs@) =~= repaired(ds0));
    let ghost mid = docs@;
    let r = install(docs, settings_json, asset_dir, windows);
    proof {
        if !r.success && mid.len() > 0 {
            let k = choose|k: int|
                0 <= k < mid.len() && (forall|j: int|
                    0 <= j < k ==> (#[trigger] mid[j]).content is Ok) && match (
                #[trigger] mid[k]).content {
                    Ok(_) => false,
                    Err(e) => r.message@ == failure_message(
                        "Failed to read "@,
                        mid[k].path@,
                        e@,
                    ),
                };
            assert(repaired(ds0)[k] == mid[k]@);
            assert forall|j: int| 0 <= j < k implies (#[trigger] repaired(ds0)[j]).content is Ok by {
                assert(repaired(ds0)[j] == mid[j]@);
            }
        }
    }
    r
}

} // verus!
