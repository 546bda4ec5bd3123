//! Laws of the patcher, proved over the document model.
use vstd::prelude::*;
use crate::injection::{
    asset_url, blank_run, file_prefix, forward_slashes, head_at, head_block, injection_text,
    inserted, insert_from, is_blank, joined_path, lemma_injection_marked, lemma_insert_absent,
    lemma_insert_present, lemma_insert_upto, preload_line, settings_line, stylesheet_line, ASSIGN,
    BLOCK_INDENT, CSS_FILE, HEAD_CLOSE, LINE_INDENT, LINK_PREFIX,
    LINK_SUFFIX, NEWLINE, PRELOAD_FILE, SCRIPT_SUFFIX, SETTINGS_SUFFIX, SRC_PREFIX, WINDOW_PREFIX,
};
use crate::markers::{
    is_patched_text, is_preload_script_line, is_signature_line, strip_lines, stripped, CSS_NAME, LEGACY_MARKER, LINK_OPEN,
    MARKER_END, MARKER_START, PRELOAD_NAME, SCRIPT_OPEN, SETTINGS_GLOBAL,
};
use crate::patcher::{
    all_readable, install_doc, install_docs, install_patched, install_reports, readable_before,
    uninstall_doc, uninstall_reports, uninstall_restored, DocState,
};
use crate::text::{
    contains, join_lines, lemma_contains_concat, lemma_contains_trans, lemma_lines_append,
    lemma_lines_cons, lines, occurs_at,
};

verus! {

proof fn lemma_install_doc_stable(d: DocState, inj: Seq<char>)
    requires
        contains(inj, MARKER_START@),
    ensures
        install_doc(install_doc(d, inj), inj) == install_doc(d, inj),
        !install_reports(install_doc(d, inj)),
        (install_doc(d, inj).content is Ok) == (d.content is Ok),
{
    reveal_strlit("</head>");
    if let Ok(c) = d.content {
        if !is_patched_text(c) {
            let c2 = inserted(c, inj);
            if contains(c, HEAD_CLOSE@) {
                let j = choose|j: int| occurs_at(c, j, HEAD_CLOSE@);
                assert(head_at(c, j));
                lemma_insert_present(c, 0, inj);
                lemma_contains_trans(c2, inj, MARKER_START@);
            } else {
                lemma_insert_absent(c, 0, inj);
                assert(c.subrange(0, c.len() as int) =~= c);
            }
        }
    }
}

/// Installing twice leaves every document exactly as installing once does,
/// succeeds or fails alike, and the second run reports no document.
pub proof fn lemma_install_idempotent(
    ds: Seq<DocState>,
    settings_json: Seq<char>,
    asset_dir: Seq<char>,
    windows: bool,
)
    ensures
        ({
            let inj = injection_text(settings_json, asset_dir, windows);
            let once = install_docs(ds, inj);
            &&& install_docs(once, inj) == once
            &&& install_patched(once) == Seq::<Seq<char>>::empty()
            &&& once.len() == ds.len()
            &&& all_readable(once) == all_readable(ds)
        }),
{
    let block = injection_text(settings_json, asset_dir, windows);
    lemma_injection_marked(settings_json, asset_dir, windows);
    lemma_install_docs_stable(ds, block);
    let once = install_docs(ds, block);
    if all_readable(ds) {
        assert forall|i: int| 0 <= i < once.len() implies once[i].content is Ok by {
            assert(ds[i].content is Ok);
        }
    } else {
        let i = choose|i: int| 0 <= i < ds.len() && !(ds[i].content is Ok);
        assert(!(once[i].content is Ok));
    }
}

proof fn lemma_install_docs_stable(ds: Seq<DocState>, block: Seq<char>)
    requires
        contains(block, MARKER_START@),
    ensures
        install_docs(install_docs(ds, block), block) == install_docs(ds, block),
        install_patched(install_docs(ds, block)) == Seq::<Seq<char>>::empty(),
        install_docs(ds, block).len() == ds.len(),
        forall|i: int|
            0 <= i < ds.len() ==> (#[trigger] install_docs(ds, block)[i].content is Ok) == (
            ds[i].content is Ok),
    decreases ds.len(),
{
    if ds.len() == 0 || ds[0].content is Err {
    } else {
        let rest = ds.subrange(1, ds.len() as int);
        lemma_install_docs_stable(rest, block);
        lemma_install_doc_stable(ds[0], block);
        let once = install_docs(ds, block);
        let d1 = install_doc(ds[0], block);
        assert(once == seq![d1] + install_docs(rest, block));
        assert(once[0] == d1);
        assert(once.subrange(1, once.len() as int) =~= install_docs(rest, block));
        assert(install_docs(once, block) =~= once);
        assert(install_patched(once) =~= Seq::<Seq<char>>::empty());
        assert forall|i: int| 0 <= i < ds.len() implies (#[trigger] once[i].content is Ok) == (
        ds[i].content is Ok) by {
            if i > 0 {
                assert(once[i] == install_docs(rest, block)[i - 1]);
                assert(rest[i - 1] == ds[i]);
            }
        }
    }
}

/// Install never replaces a backup that exists, and every document whose text
/// it changes has a backup afterwards.
pub proof fn lemma_install_keeps_backups(ds: Seq<DocState>, block: Seq<char>)
    ensures
        install_docs(ds, block).len() == ds.len(),
        forall|i: int|
            0 <= i < ds.len() ==> {
                let after = #[trigger] install_docs(ds, block)[i];
                &&& ds[i].backup is Some ==> after.backup == ds[i].backup
                &&& after.content != ds[i].content ==> after.backup is Some
                &&& after.path == ds[i].path
            },
    decreases ds.len(),
{
    if ds.len() == 0 || ds[0].content is Err {
    } else {
        let rest = ds.subrange(1, ds.len() as int);
        lemma_install_keeps_backups(rest, block);
        let once = install_docs(ds, block);
        assert forall|i: int| 0 <= i < ds.len() implies {
            let after = #[trigger] once[i];
            &&& ds[i].backup is Some ==> after.backup == ds[i].backup
            &&& after.content != ds[i].content ==> after.backup is Some
            &&& after.path == ds[i].path
        } by {
            if i > 0 {
                assert(once[i] == install_docs(rest, block)[i - 1]);
                assert(rest[i - 1] == ds[i]);
            }
        }
    }
}

/// Uninstall removes the backup of every document it restores, and leaves
/// every other document as it was.
pub proof fn lemma_uninstall_clears_backup(d: DocState)
    ensures
        uninstall_reports(d) ==> uninstall_doc(d).backup is None,
        !uninstall_reports(d) ==> uninstall_doc(d) == d,
        uninstall_doc(d).path == d.path,
{
}

/// No line that stripping keeps holds a marker or a signature.
pub proof fn lemma_strip_lines_clean(ls: Seq<Seq<char>>, inside: bool)
    ensures
        forall|k: int|
            0 <= k < strip_lines(ls, inside).len() ==> {
                let l = #[trigger] strip_lines(ls, inside)[k];
                &&& !contains(l, MARKER_START@)
                &&& !contains(l, MARKER_END@)
                &&& !is_signature_line(l)
            },
    decreases ls.len(),
{
    if ls.len() > 0 {
        let rest = ls.subrange(1, ls.len() as int);
        lemma_strip_lines_clean(rest, true);
        lemma_strip_lines_clean(rest, false);
        let l = ls[0];
        if contains(l, MARKER_START@) {
            assert(strip_lines(ls, inside) == strip_lines(rest, true));
        } else if contains(l, MARKER_END@) {
            assert(strip_lines(ls, inside) == strip_lines(rest, false));
        } else if inside || is_signature_line(l) {
            assert(strip_lines(ls, inside) == strip_lines(rest, inside));
        } else {
            let r = strip_lines(ls, inside);
            assert forall|k: int| 0 <= k < r.len() implies {
                let m = #[trigger] r[k];
                &&& !contains(m, MARKER_START@)
                &&& !contains(m, MARKER_END@)
                &&& !is_signature_line(m)
            } by {
                if k > 0 {
                    assert(r[k] == strip_lines(rest, inside)[k - 1]);
                }
            }
        }
    }
}

/// A text without line breaks found in joined lines lies within one line.
pub proof fn lemma_join_contains(ls: Seq<Seq<char>>, m: Seq<char>)
    requires
        m.len() > 0,
        forall|i: int| 0 <= i < m.len() ==> m[i] != '\n',
        contains(join_lines(ls), m),
    ensures
        exists|k: int| 0 <= k < ls.len() && contains(#[trigger] ls[k], m),
    decreases ls.len(),
{
    let j = join_lines(ls);
    let i = choose|i: int| occurs_at(j, i, m);
    if ls.len() == 0 {
        assert(j.len() == 0);
    } else if ls.len() == 1 {
        assert(contains(ls[0], m));
    } else {
        let front = ls.drop_last();
        let j1 = join_lines(front);
        let last = ls.last();
        assert(j == j1 + seq!['\n'] + last);
        if i + m.len() <= j1.len() {
            assert(j1.subrange(i, i + m.len()) =~= j.subrange(i, i + m.len()));
            assert(occurs_at(j1, i, m));
            lemma_join_contains(front, m);
            let k = choose|k: int| 0 <= k < front.len() && contains(#[trigger] front[k], m);
            assert(ls[k] == front[k]);
        } else if i >= j1.len() + 1 {
            let i2 = i - j1.len() - 1;
            assert(last.subrange(i2, i2 + m.len()) =~= j.subrange(i, i + m.len()));
            assert(occurs_at(last, i2, m));
            assert(ls[ls.len() - 1] == last);
        } else {
            let p = j1.len() - i;
            assert(j.subrange(i, i + m.len())[p] == j[j1.len() as int]);
            assert(m[p] == '\n');
        }
    }
}

/// A document that carries only the legacy marker, or only the preload tag of
/// a marker-less install, reads as patched; and whatever a document holds,
/// the stripped text contains none of the three markers.
pub proof fn lemma_strip_migrates(c: Seq<char>)
    ensures
        contains(c, LEGACY_MARKER@) ==> is_patched_text(c),
        contains(c, PRELOAD_NAME@) ==> is_patched_text(c),
        !contains(stripped(c), MARKER_START@),
        !contains(stripped(c), MARKER_END@),
        !contains(stripped(c), LEGACY_MARKER@),
{
    reveal_strlit("<!-- uprooted:start -->");
    reveal_strlit("<!-- uprooted:end -->");
    reveal_strlit("<!-- uprooted -->");
    let kept = strip_lines(lines(c), false);
    lemma_strip_lines_clean(lines(c), false);
    if contains(stripped(c), MARKER_START@) {
        lemma_join_contains(kept, MARKER_START@);
    }
    if contains(stripped(c), MARKER_END@) {
        lemma_join_contains(kept, MARKER_END@);
    }
    if contains(stripped(c), LEGACY_MARKER@) {
        lemma_join_contains(kept, LEGACY_MARKER@);
        let k = choose|k: int| 0 <= k < kept.len() && contains(#[trigger] kept[k], LEGACY_MARKER@);
        assert(is_signature_line(kept[k]));
    }
}

/// No line break in `s`.
pub open spec fn single_line(s: Seq<char>) -> bool {
    forall|m: int| 0 <= m < s.len() ==> s[m] != '\n'
}

proof fn lemma_single_line_concat(a: Seq<char>, b: Seq<char>)
    requires
        single_line(a),
        single_line(b),
    ensures
        single_line(a + b),
{
    assert forall|m: int| 0 <= m < (a + b).len() implies (a + b)[m] != '\n' by {
        if m < a.len() {
            assert((a + b)[m] == a[m]);
        } else {
            assert((a + b)[m] == b[m - a.len()]);
        }
    }
}

proof fn lemma_literals_single_line()
    ensures
        single_line(MARKER_START@),
        single_line(MARKER_END@),
        single_line(BLOCK_INDENT@),
        single_line(LINE_INDENT@),
        single_line(SCRIPT_OPEN@),
        single_line(WINDOW_PREFIX@),
        single_line(SETTINGS_GLOBAL@),
        single_line(ASSIGN@),
        single_line(SETTINGS_SUFFIX@),
        single_line(SRC_PREFIX@),
        single_line(SCRIPT_SUFFIX@),
        single_line(LINK_OPEN@),
        single_line(LINK_PREFIX@),
        single_line(LINK_SUFFIX@),
        single_line(PRELOAD_FILE@),
        single_line(CSS_FILE@),
        single_line("file:///"@),
        single_line("file://"@),
        NEWLINE@ == seq!['\n'],
        MARKER_START@.len() == 23 && MARKER_START@[0] == '<' && MARKER_START@.last() == '>',
        MARKER_END@.len() == 21 && MARKER_END@.last() == '>',
        LINE_INDENT@.len() == 4 && LINE_INDENT@[0] == ' ' && LINE_INDENT@[1] == ' '
            && LINE_INDENT@[2] == ' ' && LINE_INDENT@[3] == ' ',
        SETTINGS_SUFFIX@.len() > 0 && SETTINGS_SUFFIX@.last() == '>',
        SCRIPT_SUFFIX@.len() > 0 && SCRIPT_SUFFIX@.last() == '>',
        LINK_SUFFIX@.len() > 0 && LINK_SUFFIX@.last() == '>',
        forward_slashes(PRELOAD_FILE@) == PRELOAD_FILE@,
        forward_slashes(CSS_FILE@) == CSS_FILE@,
        contains(PRELOAD_FILE@, PRELOAD_NAME@),
        CSS_FILE@ == CSS_NAME@,
{
    reveal_strlit("<!-- uprooted:start -->");
    reveal_strlit("<!-- uprooted:end -->");
    reveal_strlit("    ");
    reveal_strlit("<script");
    reveal_strlit(">window.");
    reveal_strlit("__UPROOTED_SETTINGS__");
    reveal_strlit("=");
    reveal_strlit(";</script>");
    reveal_strlit(" src=\"");
    reveal_strlit("\"></script>");
    reveal_strlit("<link");
    reveal_strlit(" rel=\"stylesheet\" href=\"");
    reveal_strlit("\">");
    reveal_strlit("uprooted-preload.js");
    reveal_strlit("uprooted.css");
    reveal_strlit("file:///");
    reveal_strlit("file://");
    reveal_strlit("\n");
    reveal_strlit("uprooted-preload");
    assert(NEWLINE@ =~= seq!['\n']);
    assert(forward_slashes(PRELOAD_FILE@) =~= PRELOAD_FILE@);
    assert(forward_slashes(CSS_FILE@) =~= CSS_FILE@);
    assert(PRELOAD_FILE@.subrange(0, PRELOAD_NAME@.len() as int) =~= PRELOAD_NAME@);
    assert(occurs_at(PRELOAD_FILE@, 0, PRELOAD_NAME@));
}

/// An asset URL has no line break when the directory has none, and ends with
/// the asset's name.
proof fn lemma_asset_url(dir: Seq<char>, name: Seq<char>, windows: bool)
    requires
        single_line(dir),
        single_line(name),
        single_line(file_prefix(windows)),
        forward_slashes(name) == name,
    ensures
        single_line(asset_url(dir, name, windows)),
        contains(asset_url(dir, name, windows), name),
{
    let j = joined_path(dir, name, windows);
    let head = j.subrange(0, j.len() - name.len());
    assert(j =~= head + name);
    assert forall|m: int| 0 <= m < j.len() implies j[m] != '\n' by {
        if m < dir.len() {
            assert(j[m] == dir[m]);
        } else if m < head.len() {
        } else {
            assert(j[m] == name[m - head.len()]);
        }
    }
    let f = forward_slashes(j);
    assert(single_line(f));
    assert(f =~= forward_slashes(head) + forward_slashes(name));
    lemma_single_line_concat(file_prefix(windows), f);
    let u = asset_url(dir, name, windows);
    assert(u =~= (file_prefix(windows) + forward_slashes(head)) + name + Seq::<char>::empty());
    lemma_contains_concat(file_prefix(windows) + forward_slashes(head), name, Seq::empty());
}

/// One step of the stripping pass over a line that it drops.
proof fn lemma_strip_step(l: Seq<char>, rest: Seq<Seq<char>>, inside: bool)
    requires
        contains(l, MARKER_START@) || contains(l, MARKER_END@) || inside || is_signature_line(l),
    ensures
        strip_lines(seq![l] + rest, inside) == strip_lines(
            rest,
            if contains(l, MARKER_START@) {
                true
            } else if contains(l, MARKER_END@) {
                false
            } else {
                inside
            },
        ),
{
    let ls = seq![l] + rest;
    assert(ls[0] == l);
    assert(ls.subrange(1, ls.len() as int) =~= rest);
}

/// The five lines that one insertion adds before the closing tag's line.
pub open spec fn inserted_lines(
    pre: Seq<char>,
    settings_json: Seq<char>,
    dir: Seq<char>,
    windows: bool,
) -> Seq<Seq<char>> {
    seq![
        pre + BLOCK_INDENT@ + MARKER_START@,
        settings_line(settings_json),
        preload_line(dir, windows),
        stylesheet_line(dir, windows),
        LINE_INDENT@ + MARKER_END@,
    ]
}

proof fn lemma_inserted_single_lines(
    pre: Seq<char>,
    settings_json: Seq<char>,
    dir: Seq<char>,
    windows: bool,
)
    requires
        single_line(pre),
        single_line(settings_json),
        single_line(dir),
    ensures
        forall|k: int|
            0 <= k < 5 ==> single_line(#[trigger] inserted_lines(pre, settings_json, dir, windows)[k])
                && inserted_lines(pre, settings_json, dir, windows)[k].last() == '>',
{
    lemma_literals_single_line();
    reveal_strlit("file:///");
    reveal_strlit("file://");
    lemma_asset_url(dir, PRELOAD_FILE@, windows);
    lemma_asset_url(dir, CSS_FILE@, windows);
    let u1 = asset_url(dir, PRELOAD_FILE@, windows);
    let u2 = asset_url(dir, CSS_FILE@, windows);
    lemma_single_line_concat(pre, BLOCK_INDENT@);
    lemma_single_line_concat(pre + BLOCK_INDENT@, MARKER_START@);
    lemma_single_line_concat(LINE_INDENT@, SCRIPT_OPEN@);
    lemma_single_line_concat(LINE_INDENT@ + SCRIPT_OPEN@, WINDOW_PREFIX@);
    lemma_single_line_concat(LINE_INDENT@ + SCRIPT_OPEN@ + WINDOW_PREFIX@, SETTINGS_GLOBAL@);
    lemma_single_line_concat(
        LINE_INDENT@ + SCRIPT_OPEN@ + WINDOW_PREFIX@ + SETTINGS_GLOBAL@,
        ASSIGN@,
    );
    lemma_single_line_concat(
        LINE_INDENT@ + SCRIPT_OPEN@ + WINDOW_PREFIX@ + SETTINGS_GLOBAL@ + ASSIGN@,
        settings_json,
    );
    lemma_single_line_concat(
        LINE_INDENT@ + SCRIPT_OPEN@ + WINDOW_PREFIX@ + SETTINGS_GLOBAL@ + ASSIGN@ + settings_json,
        SETTINGS_SUFFIX@,
    );
    lemma_single_line_concat(LINE_INDENT@ + SCRIPT_OPEN@, SRC_PREFIX@);
    lemma_single_line_concat(LINE_INDENT@ + SCRIPT_OPEN@ + SRC_PREFIX@, u1);
    lemma_single_line_concat(LINE_INDENT@ + SCRIPT_OPEN@ + SRC_PREFIX@ + u1, SCRIPT_SUFFIX@);
    lemma_single_line_concat(LINE_INDENT@, LINK_OPEN@);
    lemma_single_line_concat(LINE_INDENT@ + LINK_OPEN@, LINK_PREFIX@);
    lemma_single_line_concat(LINE_INDENT@ + LINK_OPEN@ + LINK_PREFIX@, u2);
    lemma_single_line_concat(LINE_INDENT@ + LINK_OPEN@ + LINK_PREFIX@ + u2, LINK_SUFFIX@);
    lemma_single_line_concat(LINE_INDENT@, MARKER_END@);
}

/// The inserted text splits into the five inserted lines and the lines from
/// the closing tag on.
#[verifier::rlimit(60)]
proof fn lemma_inserted_split(
    pre: Seq<char>,
    settings_json: Seq<char>,
    dir: Seq<char>,
    windows: bool,
    indent: Seq<char>,
    post: Seq<char>,
)
    requires
        single_line(pre),
        single_line(settings_json),
        single_line(dir),
    ensures
        lines(pre + head_block(injection_text(settings_json, dir, windows), indent) + post)
            == inserted_lines(pre, settings_json, dir, windows) + lines(indent + HEAD_CLOSE@ + post),
{
    lemma_literals_single_line();
    lemma_inserted_single_lines(pre, settings_json, dir, windows);
    let ins = inserted_lines(pre, settings_json, dir, windows);
    let nl = seq!['\n'];
    let t = indent + HEAD_CLOSE@ + post;
    let r4 = ins[4] + nl + t;
    let r3 = ins[3] + nl + r4;
    let r2 = ins[2] + nl + r3;
    let r1 = ins[1] + nl + r2;
    assert(single_line(ins[0]) && single_line(ins[1]) && single_line(ins[2]) && single_line(ins[3])
        && single_line(ins[4]));
    let x = pre + head_block(injection_text(settings_json, dir, windows), indent) + post;
    assert(x =~= ins[0] + nl + r1);
    lemma_lines_cons(ins[0], r1);
    lemma_lines_cons(ins[1], r2);
    lemma_lines_cons(ins[2], r3);
    lemma_lines_cons(ins[3], r4);
    lemma_lines_cons(ins[4], t);
    assert(lines(x) =~= ins + lines(t));
}

proof fn lemma_settings_line_dropped(settings_json: Seq<char>)
    ensures
        is_signature_line(settings_line(settings_json)),
{
    let l2 = settings_line(settings_json);
    let a2 = WINDOW_PREFIX@ + SETTINGS_GLOBAL@ + ASSIGN@ + settings_json + SETTINGS_SUFFIX@;
    assert(l2 =~= LINE_INDENT@ + SCRIPT_OPEN@ + a2);
    lemma_contains_concat(LINE_INDENT@, SCRIPT_OPEN@, a2);
    assert(l2 =~= (LINE_INDENT@ + SCRIPT_OPEN@ + WINDOW_PREFIX@) + SETTINGS_GLOBAL@ + (ASSIGN@
        + settings_json + SETTINGS_SUFFIX@));
    lemma_contains_concat(
        LINE_INDENT@ + SCRIPT_OPEN@ + WINDOW_PREFIX@,
        SETTINGS_GLOBAL@,
        ASSIGN@ + settings_json + SETTINGS_SUFFIX@,
    );
}

proof fn lemma_preload_line_dropped(dir: Seq<char>, windows: bool)
    requires
        single_line(dir),
    ensures
        is_signature_line(preload_line(dir, windows)),
{
    lemma_literals_single_line();
    lemma_asset_url(dir, PRELOAD_FILE@, windows);
    let u1 = asset_url(dir, PRELOAD_FILE@, windows);
    let l3 = preload_line(dir, windows);
    assert(l3 =~= LINE_INDENT@ + SCRIPT_OPEN@ + (SRC_PREFIX@ + u1 + SCRIPT_SUFFIX@));
    lemma_contains_concat(LINE_INDENT@, SCRIPT_OPEN@, SRC_PREFIX@ + u1 + SCRIPT_SUFFIX@);
    assert(l3 =~= (LINE_INDENT@ + SCRIPT_OPEN@ + SRC_PREFIX@) + u1 + SCRIPT_SUFFIX@);
    lemma_contains_concat(LINE_INDENT@ + SCRIPT_OPEN@ + SRC_PREFIX@, u1, SCRIPT_SUFFIX@);
    lemma_contains_trans(l3, u1, PRELOAD_FILE@);
    lemma_contains_trans(l3, PRELOAD_FILE@, PRELOAD_NAME@);
}

proof fn lemma_stylesheet_line_dropped(dir: Seq<char>, windows: bool)
    requires
        single_line(dir),
    ensures
        is_signature_line(stylesheet_line(dir, windows)),
{
    lemma_literals_single_line();
    lemma_asset_url(dir, CSS_FILE@, windows);
    let u2 = asset_url(dir, CSS_FILE@, windows);
    let l4 = stylesheet_line(dir, windows);
    assert(l4 =~= LINE_INDENT@ + LINK_OPEN@ + (LINK_PREFIX@ + u2 + LINK_SUFFIX@));
    lemma_contains_concat(LINE_INDENT@, LINK_OPEN@, LINK_PREFIX@ + u2 + LINK_SUFFIX@);
    assert(l4 =~= (LINE_INDENT@ + LINK_OPEN@ + LINK_PREFIX@) + u2 + LINK_SUFFIX@);
    lemma_contains_concat(LINE_INDENT@ + LINK_OPEN@ + LINK_PREFIX@, u2, LINK_SUFFIX@);
    lemma_contains_trans(l4, u2, CSS_FILE@);
}

proof fn lemma_marker_lines(pre: Seq<char>)
    ensures
        contains(pre + BLOCK_INDENT@ + MARKER_START@, MARKER_START@),
        contains(LINE_INDENT@ + MARKER_END@, MARKER_END@),
{
    lemma_contains_concat(pre + BLOCK_INDENT@, MARKER_START@, Seq::empty());
    assert(pre + BLOCK_INDENT@ + MARKER_START@ =~= pre + BLOCK_INDENT@ + MARKER_START@
        + Seq::<char>::empty());
    assert(LINE_INDENT@ + MARKER_END@ =~= LINE_INDENT@ + MARKER_END@ + Seq::<char>::empty());
    lemma_contains_concat(LINE_INDENT@, MARKER_END@, Seq::empty());
}

proof fn lemma_end_line_unmarked()
    ensures
        !contains(LINE_INDENT@ + MARKER_END@, MARKER_START@),
{
    reveal_strlit("<!-- uprooted:start -->");
    reveal_strlit("<!-- uprooted:end -->");
    reveal_strlit("    ");
    let l5 = LINE_INDENT@ + MARKER_END@;
    assert forall|i: int| !occurs_at(l5, i, MARKER_START@) by {
        if occurs_at(l5, i, MARKER_START@) {
            assert(l5.subrange(i, i + 23)[0] == l5[i]);
        }
    }
}

/// Which rule drops each inserted line.
proof fn lemma_inserted_dropped(
    pre: Seq<char>,
    settings_json: Seq<char>,
    dir: Seq<char>,
    windows: bool,
)
    requires
        single_line(dir),
    ensures
        ({
            let ins = inserted_lines(pre, settings_json, dir, windows);
            &&& contains(ins[0], MARKER_START@)
            &&& is_signature_line(ins[1])
            &&& is_signature_line(ins[2])
            &&& is_signature_line(ins[3])
            &&& contains(ins[4], MARKER_END@)
            &&& !contains(ins[4], MARKER_START@)
        }),
{
    lemma_settings_line_dropped(settings_json);
    lemma_preload_line_dropped(dir, windows);
    lemma_stylesheet_line_dropped(dir, windows);
    lemma_marker_lines(pre);
    lemma_end_line_unmarked();
}

/// Stripping removes exactly the lines that one insertion before a closing
/// head tag put in: the start-marker line (with whatever preceded the tag on
/// its line), the settings, script and stylesheet lines and the end-marker
/// line. It then goes on outside any block at the line of the closing tag.
pub proof fn lemma_strip_inserted_block(
    pre: Seq<char>,
    settings_json: Seq<char>,
    dir: Seq<char>,
    windows: bool,
    indent: Seq<char>,
    post: Seq<char>,
    inside: bool,
)
    requires
        single_line(pre),
        single_line(settings_json),
        single_line(dir),
    ensures
        strip_lines(
            lines(pre + head_block(injection_text(settings_json, dir, windows), indent) + post),
            inside,
        ) == strip_lines(lines(indent + HEAD_CLOSE@ + post), false),
{
    lemma_inserted_split(pre, settings_json, dir, windows, indent, post);
    lemma_inserted_dropped(pre, settings_json, dir, windows);
    let ins = inserted_lines(pre, settings_json, dir, windows);
    let ls = lines(indent + HEAD_CLOSE@ + post);
    assert(ins + ls =~= seq![ins[0]] + (seq![ins[1]] + (seq![ins[2]] + (seq![ins[3]] + (seq![
        ins[4],
    ] + ls)))));
    lemma_strip_step(ins[0], seq![ins[1]] + (seq![ins[2]] + (seq![ins[3]] + (seq![ins[4]] + ls))), inside);
    let i2 = if contains(ins[1], MARKER_START@) {
        true
    } else if contains(ins[1], MARKER_END@) {
        false
    } else {
        true
    };
    lemma_strip_step(ins[1], seq![ins[2]] + (seq![ins[3]] + (seq![ins[4]] + ls)), true);
    let i3 = if contains(ins[2], MARKER_START@) {
        true
    } else if contains(ins[2], MARKER_END@) {
        false
    } else {
        i2
    };
    lemma_strip_step(ins[2], seq![ins[3]] + (seq![ins[4]] + ls), i2);
    let i4 = if contains(ins[3], MARKER_START@) {
        true
    } else if contains(ins[3], MARKER_END@) {
        false
    } else {
        i3
    };
    lemma_strip_step(ins[3], seq![ins[4]] + ls, i3);
    lemma_strip_step(ins[4], ls, i4);
}

/// A line that stripping keeps whatever state it is in.
pub open spec fn plain_line(l: Seq<char>) -> bool {
    !contains(l, MARKER_START@) && !contains(l, MARKER_END@) && !is_signature_line(l)
}

proof fn lemma_strip_plain_prefix(ls1: Seq<Seq<char>>, ls2: Seq<Seq<char>>)
    requires
        forall|k: int| 0 <= k < ls1.len() ==> plain_line(#[trigger] ls1[k]),
    ensures
        strip_lines(ls1 + ls2, false) == ls1 + strip_lines(ls2, false),
    decreases ls1.len(),
{
    if ls1.len() == 0 {
        assert(ls1 + ls2 =~= ls2);
        assert(ls1 + strip_lines(ls2, false) =~= strip_lines(ls2, false));
    } else {
        let t = ls1.subrange(1, ls1.len() as int);
        assert forall|k: int| 0 <= k < t.len() implies plain_line(#[trigger] t[k]) by {
            assert(t[k] == ls1[k + 1]);
        }
        lemma_strip_plain_prefix(t, ls2);
        assert(plain_line(ls1[0]));
        assert((ls1 + ls2)[0] == ls1[0]);
        assert((ls1 + ls2).subrange(1, (ls1 + ls2).len() as int) =~= t + ls2);
        assert(ls1 + strip_lines(ls2, false) =~= seq![ls1[0]] + (t + strip_lines(ls2, false)));
    }
}

/// The blanks before the tag, after a line start, make up the whole run.
proof fn lemma_blank_run_indent(a: Seq<char>, indent: Seq<char>, rest: Seq<char>, j: int)
    requires
        a.len() == 0 || a.last() == '\n',
        forall|m: int| 0 <= m < indent.len() ==> is_blank(indent[m]),
        0 <= j <= indent.len(),
    ensures
        blank_run(a + indent + rest, a.len() + j) == j,
    decreases j,
{
    let c = a + indent + rest;
    if j > 0 {
        assert(c[a.len() + j - 1] == indent[j - 1]);
        lemma_blank_run_indent(a, indent, rest, j - 1);
    } else if a.len() > 0 {
        assert(c[a.len() - 1] == '\n');
    }
}

/// Inserting into a document whose one closing head tag follows a line start
/// and a run of blanks puts the block right there, repeating the blanks.
#[verifier::rlimit(60)]
proof fn lemma_insert_single_head(a: Seq<char>, indent: Seq<char>, r: Seq<char>, inj: Seq<char>)
    requires
        a.len() == 0 || a.last() == '\n',
        forall|m: int| 0 <= m < indent.len() ==> is_blank(indent[m]),
        forall|i: int|
            0 <= i < a.len() + indent.len() ==> !occurs_at(
                a + indent + HEAD_CLOSE@ + r,
                i,
                HEAD_CLOSE@,
            ),
        !contains(r, HEAD_CLOSE@),
    ensures
        inserted(a + indent + HEAD_CLOSE@ + r, inj) == a + indent + head_block(inj, indent) + r,
        contains(a + indent + HEAD_CLOSE@ + r, HEAD_CLOSE@),
{
    reveal_strlit("</head>");
    let c = a + indent + HEAD_CLOSE@ + r;
    let k = (a.len() + indent.len()) as int;
    let hl = HEAD_CLOSE@.len() as int;
    assert(c.subrange(k, k + hl) =~= HEAD_CLOSE@);
    assert(occurs_at(c, k, HEAD_CLOSE@));
    assert(head_at(c, k));
    assert forall|j: int| 0 <= j < k implies !head_at(c, j) by {}
    lemma_insert_upto(c, 0, k, inj);
    assert forall|j: int| k + hl <= j implies !head_at(c, j) by {
        if head_at(c, j) {
            assert(r.subrange(j - k - hl, j - k) =~= c.subrange(j, j + hl));
            assert(occurs_at(r, j - k - hl, HEAD_CLOSE@));
        }
    }
    lemma_insert_absent(c, k + hl, inj);
    assert(c.subrange(k + hl, c.len() as int) =~= r);
    lemma_blank_run_indent(a, indent, HEAD_CLOSE@ + r, indent.len() as int);
    assert(a + indent + HEAD_CLOSE@ + r =~= a + indent + (HEAD_CLOSE@ + r));
    assert(c.subrange(k - indent.len(), k) =~= indent);
    assert(c.subrange(0, k) =~= a + indent);
    assert(insert_from(c, k, inj) == head_block(inj, indent) + r);
    assert(inserted(c, inj) =~= a + indent + head_block(inj, indent) + r);
}

/// Stripping the document with the block inserted before its indented tag
/// gives the document back.
#[verifier::rlimit(60)]
proof fn lemma_strip_after_insert(
    a: Seq<char>,
    indent: Seq<char>,
    r: Seq<char>,
    settings_json: Seq<char>,
    dir: Seq<char>,
    windows: bool,
)
    requires
        a.len() == 0 || a.last() == '\n',
        forall|m: int| 0 <= m < indent.len() ==> is_blank(indent[m]),
        forall|k: int|
            0 <= k < lines(a + indent + HEAD_CLOSE@ + r).len() ==> plain_line(
                #[trigger] lines(a + indent + HEAD_CLOSE@ + r)[k],
            ),
        join_lines(lines(a + indent + HEAD_CLOSE@ + r)) == a + indent + HEAD_CLOSE@ + r,
        single_line(settings_json),
        single_line(dir),
    ensures
        stripped(a + indent + head_block(injection_text(settings_json, dir, windows), indent) + r)
            == a + indent + HEAD_CLOSE@ + r,
{
    let c = a + indent + HEAD_CLOSE@ + r;
    let inj = injection_text(settings_json, dir, windows);
    let hb = head_block(inj, indent);
    let x = a + indent + hb + r;
    assert(single_line(indent));
    let rest = indent + hb + r;
    let cl = indent + HEAD_CLOSE@ + r;
    lemma_strip_inserted_block(indent, settings_json, dir, windows, indent, r, false);
    lemma_strip_plain_prefix(lines(c), Seq::empty());
    assert(lines(c) + Seq::<Seq<char>>::empty() =~= lines(c));
    if a.len() == 0 {
        assert(x =~= rest);
        assert(c =~= cl);
    } else {
        assert(x =~= a + rest);
        assert(c =~= a + cl);
        lemma_lines_append(a, rest);
        lemma_lines_append(a, cl);
        assert forall|m: int| 0 <= m < lines(a).len() implies plain_line(#[trigger] lines(a)[m]) by {
            assert(lines(c)[m] == lines(a)[m]);
        }
        assert forall|m: int| 0 <= m < lines(cl).len() implies plain_line(#[trigger] lines(cl)[m]) by {
            assert(lines(c)[lines(a).len() + m] == lines(cl)[m]);
        }
        lemma_strip_plain_prefix(lines(a), lines(rest));
        lemma_strip_plain_prefix(lines(cl), Seq::empty());
        assert(lines(cl) + Seq::<Seq<char>>::empty() =~= lines(cl));
    }
    assert(stripped(x) == c);
}

/// Install then uninstall gives back a clean document byte for byte when its
/// one closing head tag stands at the start of its line after any run of
/// spaces and tabs. The other conditions come from stripping being a
/// line-by-line pass that joins the kept lines with `'\n'`: no line of the
/// document is one that stripping removes, and the document is the join of
/// its own lines. So a document that ends in a line break, or uses `"\r\n"`,
/// does not come back byte for byte, and neither does one with text before
/// the tag on the tag's line, which is dropped with the start-marker line.
/// The settings and asset directory must hold no line break.
#[verifier::rlimit(60)]
pub proof fn lemma_install_uninstall_round_trip(
    path: Seq<char>,
    a: Seq<char>,
    indent: Seq<char>,
    r: Seq<char>,
    settings_json: Seq<char>,
    dir: Seq<char>,
    windows: bool,
)
    requires
        a.len() == 0 || a.last() == '\n',
        forall|m: int| 0 <= m < indent.len() ==> is_blank(indent[m]),
        forall|i: int|
            0 <= i < a.len() + indent.len() ==> !occurs_at(
                a + indent + HEAD_CLOSE@ + r,
                i,
                HEAD_CLOSE@,
            ),
        !contains(r, HEAD_CLOSE@),
        !is_patched_text(a + indent + HEAD_CLOSE@ + r),
        forall|k: int|
            0 <= k < lines(a + indent + HEAD_CLOSE@ + r).len() ==> plain_line(
                #[trigger] lines(a + indent + HEAD_CLOSE@ + r)[k],
            ),
        join_lines(lines(a + indent + HEAD_CLOSE@ + r)) == a + indent + HEAD_CLOSE@ + r,
        single_line(settings_json),
        single_line(dir),
    ensures
        ({
            let c = a + indent + HEAD_CLOSE@ + r;
            let d = DocState { path, content: Ok(c), backup: None };
            let inj = injection_text(settings_json, dir, windows);
            &&& install_reports(d)
            &&& uninstall_doc(install_doc(d, inj)).content == Ok::<Seq<char>, Seq<char>>(c)
        }),
{
    let c = a + indent + HEAD_CLOSE@ + r;
    let inj = injection_text(settings_json, dir, windows);
    lemma_insert_single_head(a, indent, r, inj);
    let x = inserted(c, inj);
    let hb = head_block(inj, indent);
    assert(x == (a + indent) + hb + r);
    // the result is patched
    lemma_injection_marked(settings_json, dir, windows);
    assert(hb + r =~= BLOCK_INDENT@ + inj + (NEWLINE@ + indent + HEAD_CLOSE@ + r));
    assert(x =~= (a + indent + BLOCK_INDENT@) + inj + (NEWLINE@ + indent + HEAD_CLOSE@ + r));
    lemma_contains_concat(a + indent + BLOCK_INDENT@, inj, NEWLINE@ + indent + HEAD_CLOSE@ + r);
    lemma_contains_trans(x, inj, MARKER_START@);
    lemma_strip_after_insert(a, indent, r, settings_json, dir, windows);
    assert(stripped(x) == c);
    assert(x != c);
}

/// Install treats each document on its own, up to the first unreadable one.
proof fn lemma_install_each(ds: Seq<DocState>, inj: Seq<char>)
    ensures
        install_docs(ds, inj).len() == ds.len(),
        forall|i: int|
            0 <= i < ds.len() ==> #[trigger] install_docs(ds, inj)[i] == if readable_before(ds, i) {
                install_doc(ds[i], inj)
            } else {
                ds[i]
            },
        forall|p: Seq<char>|
            #[trigger] install_patched(ds).contains(p) <==> exists|i: int|
                0 <= i < ds.len() && readable_before(ds, i) && install_reports(#[trigger] ds[i])
                    && ds[i].path == p,
    decreases ds.len(),
{
    if ds.len() == 0 {
    } else if ds[0].content is Err {
        assert forall|i: int| 0 <= i < ds.len() implies #[trigger] install_docs(ds, inj)[i] == if readable_before(ds, i) {
            install_doc(ds[i], inj)
        } else {
            ds[i]
        } by {
            if i > 0 {
                assert(!readable_before(ds, i)) by {
                    assert(ds[0].content is Err);
                }
            }
        }
        assert(install_patched(ds) =~= Seq::<Seq<char>>::empty());
        assert forall|p: Seq<char>| #[trigger] install_patched(ds).contains(p) <==> exists|i: int|
            0 <= i < ds.len() && readable_before(ds, i) && install_reports(#[trigger] ds[i])
                && ds[i].path == p by {
            if exists|i: int|
                0 <= i < ds.len() && readable_before(ds, i) && install_reports(#[trigger] ds[i])
                    && ds[i].path == p {
                let i = choose|i: int|
                    0 <= i < ds.len() && readable_before(ds, i) && install_reports(#[trigger] ds[i])
                        && ds[i].path == p;
                if i > 0 {
                    assert(ds[0].content is Ok);
                }
            }
        }
    } else {
        let rest = ds.subrange(1, ds.len() as int);
        lemma_install_each(rest, inj);
        let once = install_docs(ds, inj);
        assert forall|i: int| 0 <= i < ds.len() implies #[trigger] once[i] == if readable_before(ds, i) {
            install_doc(ds[i], inj)
        } else {
            ds[i]
        } by {
            if i > 0 {
                assert(once[i] == install_docs(rest, inj)[i - 1]);
                assert(rest[i - 1] == ds[i]);
                assert(readable_before(ds, i) == readable_before(rest, i - 1)) by {
                    if readable_before(rest, i - 1) {
                        assert forall|j: int| 0 <= j < i implies (#[trigger] ds[j]).content is Ok by {
                            if j > 0 {
                                assert(ds[j] == rest[j - 1]);
                            }
                        }
                    }
                    if readable_before(ds, i) {
                        assert forall|j: int| 0 <= j < i - 1 implies (#[trigger] rest[j]).content is Ok by {
                            assert(rest[j] == ds[j + 1]);
                        }
                    }
                }
            }
        }
        let head: Seq<Seq<char>> = if install_reports(ds[0]) {
            seq![ds[0].path]
        } else {
            Seq::empty()
        };
        assert(install_patched(ds) == head + install_patched(rest));
        assert forall|p: Seq<char>| #[trigger] install_patched(ds).contains(p) <==> exists|i: int|
            0 <= i < ds.len() && readable_before(ds, i) && install_reports(#[trigger] ds[i])
                && ds[i].path == p by {
            if install_patched(ds).contains(p) {
                let m = choose|m: int| 0 <= m < install_patched(ds).len() && install_patched(ds)[m] == p;
                if m < head.len() {
                    assert(readable_before(ds, 0));
                } else {
                    assert(install_patched(rest)[m - head.len()] == p);
                    assert(install_patched(rest).contains(p));
                    let i = choose|i: int|
                        0 <= i < rest.len() && readable_before(rest, i) && install_reports(
                            #[trigger] rest[i],
                        ) && rest[i].path == p;
                    assert(rest[i] == ds[i + 1]);
                    assert forall|j: int| 0 <= j < i + 1 implies (#[trigger] ds[j]).content is Ok by {
                        if j > 0 {
                            assert(ds[j] == rest[j - 1]);
                        }
                    }
                }
            }
            if exists|i: int|
                0 <= i < ds.len() && readable_before(ds, i) && install_reports(#[trigger] ds[i])
                    && ds[i].path == p {
                let i = choose|i: int|
                    0 <= i < ds.len() && readable_before(ds, i) && install_reports(#[trigger] ds[i])
                        && ds[i].path == p;
                if i == 0 {
                    assert(head[0] == p);
                    assert(install_patched(ds)[0] == p);
                } else {
                    assert(rest[i - 1] == ds[i]);
                    assert forall|j: int| 0 <= j < i - 1 implies (#[trigger] rest[j]).content is Ok by {
                        assert(rest[j] == ds[j + 1]);
                    }
                    assert(install_patched(rest).contains(p));
                    let m = choose|m: int|
                        0 <= m < install_patched(rest).len() && install_patched(rest)[m] == p;
                    assert(install_patched(ds)[head.len() + m] == p);
                }
            }
        }
    }
}

/// With distinct paths, install reports a document that it reaches exactly
/// when that document was clean and had a closing head tag. Such a document
/// then has a backup, holding its original text unless a backup already
/// existed; a clean document without the tag keeps its text and is not
/// reported.
pub proof fn lemma_install_reports_by_path(
    ds: Seq<DocState>,
    settings_json: Seq<char>,
    asset_dir: Seq<char>,
    windows: bool,
)
    requires
        forall|i: int, j: int| 0 <= i < j < ds.len() ==> ds[i].path != ds[j].path,
    ensures
        ({
            let inj = injection_text(settings_json, asset_dir, windows);
            forall|i: int|
                0 <= i < ds.len() && readable_before(ds, i) ==> {
                    &&& install_patched(ds).contains(#[trigger] ds[i].path) == install_reports(ds[i])
                    &&& install_reports(ds[i]) ==> install_docs(ds, inj)[i].backup == if ds[i].backup is Some {
                        ds[i].backup
                    } else {
                        Some(ds[i].content->Ok_0)
                    }
                    &&& (ds[i].content is Ok && !is_patched_text(ds[i].content->Ok_0) && !contains(
                        ds[i].content->Ok_0,
                        HEAD_CLOSE@,
                    )) ==> install_docs(ds, inj)[i].content == ds[i].content
                }
        }),
{
    reveal_strlit("</head>");
    let inj = injection_text(settings_json, asset_dir, windows);
    lemma_install_each(ds, inj);
    assert forall|i: int| 0 <= i < ds.len() && readable_before(ds, i) implies {
        &&& install_patched(ds).contains(#[trigger] ds[i].path) == install_reports(ds[i])
        &&& install_reports(ds[i]) ==> install_docs(ds, inj)[i].backup == if ds[i].backup is Some {
            ds[i].backup
        } else {
            Some(ds[i].content->Ok_0)
        }
        &&& (ds[i].content is Ok && !is_patched_text(ds[i].content->Ok_0) && !contains(
            ds[i].content->Ok_0,
            HEAD_CLOSE@,
        )) ==> install_docs(ds, inj)[i].content == ds[i].content
    } by {
        assert(install_docs(ds, inj)[i] == install_doc(ds[i], inj));
        if install_patched(ds).contains(ds[i].path) {
            let j = choose|j: int|
                0 <= j < ds.len() && readable_before(ds, j) && install_reports(#[trigger] ds[j])
                    && ds[j].path == ds[i].path;
            assert(j == i);
        }
        if let Ok(c) = ds[i].content {
            if !is_patched_text(c) && !contains(c, HEAD_CLOSE@) {
                lemma_insert_absent(c, 0, inj);
                assert(c.subrange(0, c.len() as int) =~= c);
            }
        }
    }
}

proof fn lemma_uninstall_restored_contains(ds: Seq<DocState>, p: Seq<char>)
    ensures
        uninstall_restored(ds).contains(p) <==> exists|i: int|
            0 <= i < ds.len() && uninstall_reports(#[trigger] ds[i]) && ds[i].path == p,
    decreases ds.len(),
{
    if ds.len() > 0 {
        let front = ds.drop_last();
        lemma_uninstall_restored_contains(front, p);
        let tail: Seq<Seq<char>> = if uninstall_reports(ds.last()) {
            seq![ds.last().path]
        } else {
            Seq::empty()
        };
        let all = uninstall_restored(ds);
        assert(all == uninstall_restored(front) + tail);
        if all.contains(p) {
            let m = choose|m: int| 0 <= m < all.len() && all[m] == p;
            if m < uninstall_restored(front).len() {
                assert(uninstall_restored(front)[m] == p);
                assert(uninstall_restored(front).contains(p));
                let i = choose|i: int|
                    0 <= i < front.len() && uninstall_reports(#[trigger] front[i]) && front[i].path
                        == p;
                assert(front[i] == ds[i]);
            } else {
                assert(ds[ds.len() - 1] == ds.last());
            }
        }
        if exists|i: int| 0 <= i < ds.len() && uninstall_reports(#[trigger] ds[i]) && ds[i].path == p {
            let i = choose|i: int|
                0 <= i < ds.len() && uninstall_reports(#[trigger] ds[i]) && ds[i].path == p;
            if i < ds.len() - 1 {
                assert(front[i] == ds[i]);
                assert(uninstall_restored(front).contains(p));
                let m = choose|m: int|
                    0 <= m < uninstall_restored(front).len() && uninstall_restored(front)[m] == p;
                assert(all[m] == p);
            } else {
                assert(all[uninstall_restored(front).len() as int] == p);
            }
        }
    }
}

/// With distinct paths, every document that uninstall reports as restored
/// has no backup afterwards, and holds either its stripped text or the text
/// of its backup.
pub proof fn lemma_uninstall_reported_without_backup(ds: Seq<DocState>)
    requires
        forall|i: int, j: int| 0 <= i < j < ds.len() ==> ds[i].path != ds[j].path,
    ensures
        forall|i: int|
            0 <= i < ds.len() ==> (uninstall_restored(ds).contains(#[trigger] ds[i].path)
                <==> uninstall_reports(ds[i])),
        forall|i: int|
            0 <= i < ds.len() && uninstall_reports(ds[i]) ==> (#[trigger] uninstall_doc(ds[i])).backup
                is None,
{
    assert forall|i: int| 0 <= i < ds.len() implies (uninstall_restored(ds).contains(
        #[trigger] ds[i].path,
    ) <==> uninstall_reports(ds[i])) by {
        lemma_uninstall_restored_contains(ds, ds[i].path);
        if uninstall_restored(ds).contains(ds[i].path) {
            let j = choose|j: int|
                0 <= j < ds.len() && uninstall_reports(#[trigger] ds[j]) && ds[j].path == ds[i].path;
            assert(j == i);
        }
    }
}

/// Every line that stripping keeps is one of the input lines.
proof fn lemma_strip_lines_from_input(ls: Seq<Seq<char>>, inside: bool)
    ensures
        forall|k: int|
            0 <= k < strip_lines(ls, inside).len() ==> exists|j: int|
                0 <= j < ls.len() && ls[j] == #[trigger] strip_lines(ls, inside)[k],
    decreases ls.len(),
{
    if ls.len() > 0 {
        let rest = ls.subrange(1, ls.len() as int);
        lemma_strip_lines_from_input(rest, true);
        lemma_strip_lines_from_input(rest, false);
        let l = ls[0];
        let r = strip_lines(ls, inside);
        let next = if contains(l, MARKER_START@) {
            true
        } else if contains(l, MARKER_END@) {
            false
        } else {
            inside
        };
        let kept_first = !contains(l, MARKER_START@) && !contains(l, MARKER_END@) && !inside
            && !is_signature_line(l);
        if kept_first {
            assert(r == seq![l] + strip_lines(rest, inside));
        } else {
            assert(r == strip_lines(rest, next));
        }
        assert forall|k: int| 0 <= k < r.len() implies exists|j: int|
            0 <= j < ls.len() && ls[j] == #[trigger] r[k] by {
            if kept_first && k == 0 {
                assert(ls[0] == r[0]);
            } else {
                let k2 = if kept_first {
                    k - 1
                } else {
                    k
                };
                let t = strip_lines(rest, next);
                assert(r[k] == t[k2]);
                let j = choose|j: int| 0 <= j < rest.len() && rest[j] == #[trigger] t[k2];
                assert(ls[j + 1] == rest[j]);
            }
        }
    }
}

/// A marker-less install is fully removed: when every line of a document
/// that names the preload script is a script tag, the stripped text no
/// longer names it and no longer reads as patched.
pub proof fn lemma_strip_removes_bare_install(c: Seq<char>)
    requires
        forall|k: int|
            0 <= k < lines(c).len() && contains(#[trigger] lines(c)[k], PRELOAD_NAME@)
                ==> is_preload_script_line(lines(c)[k]),
    ensures
        !contains(stripped(c), PRELOAD_NAME@),
        !is_patched_text(stripped(c)),
{
    reveal_strlit("uprooted-preload");
    lemma_strip_migrates(c);
    let kept = strip_lines(lines(c), false);
    lemma_strip_lines_clean(lines(c), false);
    lemma_strip_lines_from_input(lines(c), false);
    if contains(stripped(c), PRELOAD_NAME@) {
        lemma_join_contains(kept, PRELOAD_NAME@);
        let k = choose|k: int| 0 <= k < kept.len() && contains(#[trigger] kept[k], PRELOAD_NAME@);
        let j = choose|j: int| 0 <= j < lines(c).len() && lines(c)[j] == #[trigger] kept[k];
        assert(is_preload_script_line(lines(c)[j]));
        assert(is_signature_line(kept[k]));
    }
}

} // verus!
