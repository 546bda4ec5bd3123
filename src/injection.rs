//! The injected fragment: asset paths, file URLs, the settings script and the
//! block that goes before the closing head tag.
use vstd::prelude::*;
use crate::markers::{LINK_OPEN, MARKER_END, MARKER_START, SCRIPT_OPEN, SETTINGS_GLOBAL};
use crate::text::{
    chars_of, contains, lemma_contains_concat, occurs_at, push_all, push_char, push_range,
};

verus! {

/// The closing head tag before which the block is inserted.
pub const HEAD_CLOSE: &'static str = "</head>";

/// Deployed preload script.
pub const PRELOAD_FILE: &'static str = "uprooted-preload.js";

/// Deployed stylesheet.
pub const CSS_FILE: &'static str = "uprooted.css";

pub const NEWLINE: &'static str = "\n";

pub const LINE_INDENT: &'static str = "    ";

pub const WINDOW_PREFIX: &'static str = ">window.";

pub const ASSIGN: &'static str = "=";

pub const SETTINGS_SUFFIX: &'static str = ";</script>";

pub const SRC_PREFIX: &'static str = " src=\"";

pub const SCRIPT_SUFFIX: &'static str = "\"></script>";

pub const LINK_PREFIX: &'static str = " rel=\"stylesheet\" href=\"";

pub const LINK_SUFFIX: &'static str = "\">";

pub const BLOCK_INDENT: &'static str = "    ";


/// A path separator of the platform.
pub open spec fn is_separator(c: char, windows: bool) -> bool {
    c == '/' || (windows && c == '\\')
}

/// `PathBuf::join` of a relative name: a separator is added unless `base` is
/// empty or already ends with one.
pub open spec fn joined_path(base: Seq<char>, name: Seq<char>, windows: bool) -> Seq<char> {
    if base.len() == 0 || is_separator(base.last(), windows) {
        base + name
    } else {
        base + seq![if windows { '\\' } else { '/' }] + name
    }
}

/// Joins a relative name onto a directory path.
pub fn join_path(base: &str, name: &str, windows: bool) -> (r: String)
    ensures
        r@ == joined_path(base@, name@, windows),
{
    let v = chars_of(base);
    let mut out = String::from_str(base);
    if v.len() > 0 {
        let last = v[v.len() - 1];
        if !(last == '/' || (windows && last == '\\')) {
            push_char(&mut out, if windows { '\\' } else { '/' });
        }
    }
    out.append(name);
    out
}

/// Every backslash turned into a forward slash.
pub open spec fn forward_slashes(s: Seq<char>) -> Seq<char> {
    s.map_values(|c: char| if c == '\\' { '/' } else { c })
}

pub fn to_forward_slashes(s: &str) -> (r: String)
    ensures
        r@ == forward_slashes(s@),
{
    let v = chars_of(s);
    let mut out = String::new();
    let mut i: usize = 0;
    while i < v.len()
        invariant
            i <= v.len(),
            v@ == s@,
            out@ == forward_slashes(s@).subrange(0, i as int),
        decreases v.len() - i,
    {
        let c = v[i];
        push_char(&mut out, if c == '\\' { '/' } else { c });
        assert(out@ =~= forward_slashes(s@).subrange(0, i + 1));
        i = i + 1;
    }
    assert(forward_slashes(s@).subrange(0, i as int) =~= forward_slashes(s@));
    out
}

/// `file:///` before a drive-letter path, `file://` before an absolute
/// Unix path.
pub open spec fn file_prefix(windows: bool) -> Seq<char> {
    if windows {
        "file:///"@
    } else {
        "file://"@
    }
}

/// The URL of a deployed asset.
pub open spec fn asset_url(dir: Seq<char>, name: Seq<char>, windows: bool) -> Seq<char> {
    file_prefix(windows) + forward_slashes(joined_path(dir, name, windows))
}

pub fn asset_url_of(dir: &str, name: &str, windows: bool) -> (r: String)
    ensures
        r@ == asset_url(dir@, name@, windows),
{
    let mut out = if windows {
        String::from_str("file:///")
    } else {
        String::from_str("file://")
    };
    let path = to_forward_slashes(join_path(dir, name, windows).as_str());
    out.append(path.as_str());
    proof {
        reveal_strlit("file:///");
        reveal_strlit("file://");
    }
    out
}

/// The line that sets the settings global.
pub open spec fn settings_line(settings_json: Seq<char>) -> Seq<char> {
    LINE_INDENT@ + SCRIPT_OPEN@ + WINDOW_PREFIX@ + SETTINGS_GLOBAL@ + ASSIGN@ + settings_json
        + SETTINGS_SUFFIX@
}

/// The line that loads the preload script.
pub open spec fn preload_line(dir: Seq<char>, windows: bool) -> Seq<char> {
    LINE_INDENT@ + SCRIPT_OPEN@ + SRC_PREFIX@ + asset_url(dir, PRELOAD_FILE@, windows)
        + SCRIPT_SUFFIX@
}

/// The line that links the stylesheet.
pub open spec fn stylesheet_line(dir: Seq<char>, windows: bool) -> Seq<char> {
    LINE_INDENT@ + LINK_OPEN@ + LINK_PREFIX@ + asset_url(dir, CSS_FILE@, windows) + LINK_SUFFIX@
}

/// The injection block: start marker, the settings script, the preload script,
/// the stylesheet link and the end marker, one per line.
pub open spec fn injection_text(settings_json: Seq<char>, dir: Seq<char>, windows: bool) -> Seq<
    char,
> {
    MARKER_START@ + NEWLINE@ + settings_line(settings_json) + NEWLINE@ + preload_line(dir, windows)
        + NEWLINE@ + stylesheet_line(dir, windows) + NEWLINE@ + LINE_INDENT@ + MARKER_END@
}

/// Builds the injection block for the given serialized settings and asset
/// directory.
#[verifier::rlimit(60)]
pub fn build_injection(settings_json: &str, dir: &str, windows: bool) -> (r: String)
    ensures
        r@ == injection_text(settings_json@, dir@, windows),
{
    let mut out = String::from_str(MARKER_START);
    out.append(NEWLINE);
    out.append(LINE_INDENT);
    out.append(SCRIPT_OPEN);
    out.append(WINDOW_PREFIX);
    out.append(SETTINGS_GLOBAL);
    out.append(ASSIGN);
    out.append(settings_json);
    out.append(SETTINGS_SUFFIX);
    out.append(NEWLINE);
    out.append(LINE_INDENT);
    out.append(SCRIPT_OPEN);
    out.append(SRC_PREFIX);
    out.append(asset_url_of(dir, PRELOAD_FILE, windows).as_str());
    out.append(SCRIPT_SUFFIX);
    out.append(NEWLINE);
    out.append(LINE_INDENT);
    out.append(LINK_OPEN);
    out.append(LINK_PREFIX);
    out.append(asset_url_of(dir, CSS_FILE, windows).as_str());
    out.append(LINK_SUFFIX);
    out.append(NEWLINE);
    out.append(LINE_INDENT);
    out.append(MARKER_END);
    proof {
        assert(out@ =~= injection_text(settings_json@, dir@, windows));
    }
    out
}

/// What replaces a closing head tag indented by `indent`: the block, then
/// the tag again on a line of its own with the same indentation.
pub open spec fn head_block(injection: Seq<char>, indent: Seq<char>) -> Seq<char> {
    BLOCK_INDENT@ + injection + NEWLINE@ + indent + HEAD_CLOSE@
}

pub open spec fn is_blank(c: char) -> bool {
    c == ' ' || c == '\t'
}

/// Length of the run of spaces and tabs that ends just before index `i`.
pub open spec fn blank_run(s: Seq<char>, i: int) -> int
    decreases i,
{
    if 0 < i <= s.len() && is_blank(s[i - 1]) {
        1 + blank_run(s, i - 1)
    } else {
        0
    }
}

/// A closing head tag starts at `i`.
pub open spec fn head_at(s: Seq<char>, i: int) -> bool {
    HEAD_CLOSE@.len() > 0 && occurs_at(s, i, HEAD_CLOSE@)
}

/// The text from `i` on with the block inserted before every closing head
/// tag; the tag is repeated after the block with the blanks that preceded it.
pub open spec fn insert_from(s: Seq<char>, i: int, injection: Seq<char>) -> Seq<char>
    decreases s.len() - i,
{
    if i < 0 || i >= s.len() {
        Seq::empty()
    } else if head_at(s, i) {
        head_block(injection, s.subrange(i - blank_run(s, i), i)) + insert_from(
            s,
            i + HEAD_CLOSE@.len(),
            injection,
        )
    } else {
        seq![s[i]] + insert_from(s, i + 1, injection)
    }
}

/// The document with the block inserted before every closing head tag.
pub open spec fn inserted(s: Seq<char>, injection: Seq<char>) -> Seq<char> {
    insert_from(s, 0, injection)
}

proof fn lemma_blank_run_bounds(s: Seq<char>, i: int)
    requires
        0 <= i <= s.len(),
    ensures
        0 <= blank_run(s, i) <= i,
    decreases i,
{
    if 0 < i && is_blank(s[i - 1]) {
        lemma_blank_run_bounds(s, i - 1);
    }
}

fn blank_run_of(v: &Vec<char>, i: usize) -> (w: usize)
    requires
        i <= v.len(),
    ensures
        w == blank_run(v@, i as int),
        w <= i,
{
    let mut k = i;
    while k > 0 && (v[k - 1] == ' ' || v[k - 1] == '\t')
        invariant
            k <= i <= v.len(),
            blank_run(v@, i as int) == (i - k) + blank_run(v@, k as int),
        decreases k,
    {
        k = k - 1;
    }
    i - k
}

/// Inserts the block before every closing head tag of `v`.
pub fn insert_before_heads(v: &Vec<char>, injection: &Vec<char>) -> (out: String)
    ensures
        out@ == inserted(v@, injection@),
{
    proof {
        reveal_strlit("</head>");
    }
    let head = chars_of(HEAD_CLOSE);
    let n = v.len();
    let mut out = String::new();
    let mut i: usize = 0;
    while i < n
        invariant
            i <= n == v.len(),
            head@ == HEAD_CLOSE@,
            HEAD_CLOSE@.len() == 7,
            out@ + insert_from(v@, i as int, injection@) == inserted(v@, injection@),
        decreases n - i,
    {
        let ghost before = out@;
        if crate::text::occurs_at_index(v, i, &head) {
            assert(head_at(v@, i as int));
            let w = blank_run_of(v, i);
            out.append(BLOCK_INDENT);
            push_all(&mut out, injection);
            out.append(NEWLINE);
            push_range(&mut out, v, i - w, i);
            out.append(HEAD_CLOSE);
            assert(before + insert_from(v@, i as int, injection@) =~= out@ + insert_from(
                v@,
                i + 7,
                injection@,
            ));
            i = i + 7;
        } else {
            assert(!head_at(v@, i as int));
            push_char(&mut out, v[i]);
            assert(before + insert_from(v@, i as int, injection@) =~= out@ + insert_from(
                v@,
                i + 1,
                injection@,
            ));
            i = i + 1;
        }
    }
    assert(out@ + Seq::<char>::empty() =~= out@);
    out
}

/// Without a closing head tag from `i` on, insertion copies the text.
pub proof fn lemma_insert_absent(s: Seq<char>, i: int, injection: Seq<char>)
    requires
        0 <= i <= s.len(),
        forall|j: int| i <= j ==> !head_at(s, j),
    ensures
        insert_from(s, i, injection) == s.subrange(i, s.len() as int),
    decreases s.len() - i,
{
    if i < s.len() {
        lemma_insert_absent(s, i + 1, injection);
        assert(seq![s[i]] + s.subrange(i + 1, s.len() as int) =~= s.subrange(i, s.len() as int));
    } else {
        assert(s.subrange(i, s.len() as int) =~= Seq::<char>::empty());
    }
}

/// Up to the first closing head tag, insertion copies the text.
pub proof fn lemma_insert_upto(s: Seq<char>, i: int, k: int, injection: Seq<char>)
    requires
        0 <= i <= k <= s.len(),
        forall|j: int| i <= j < k ==> !head_at(s, j),
    ensures
        insert_from(s, i, injection) == s.subrange(i, k) + insert_from(s, k, injection),
    decreases k - i,
{
    if i < k {
        lemma_insert_upto(s, i + 1, k, injection);
        assert(seq![s[i]] + (s.subrange(i + 1, k) + insert_from(s, k, injection)) =~= s.subrange(
            i,
            k,
        ) + insert_from(s, k, injection));
    } else {
        assert(s.subrange(i, k) + insert_from(s, k, injection) =~= insert_from(s, k, injection));
    }
}

/// Where a closing head tag occurs, the block appears in the result.
pub proof fn lemma_insert_present(s: Seq<char>, i: int, injection: Seq<char>)
    requires
        0 <= i,
        exists|j: int| i <= j && head_at(s, j),
    ensures
        contains(insert_from(s, i, injection), injection),
    decreases s.len() - i,
{
    let j = choose|j: int| i <= j && head_at(s, j);
    if head_at(s, i) {
        let hb = head_block(injection, s.subrange(i - blank_run(s, i), i));
        let rest = insert_from(s, i + HEAD_CLOSE@.len(), injection);
        let tail = NEWLINE@ + s.subrange(i - blank_run(s, i), i) + HEAD_CLOSE@ + rest;
        assert(hb + rest =~= BLOCK_INDENT@ + injection + tail);
        lemma_contains_concat(BLOCK_INDENT@, injection, tail);
    } else {
        assert(i < s.len());
        lemma_insert_present(s, i + 1, injection);
        let u = insert_from(s, i + 1, injection);
        let k = choose|k: int| occurs_at(u, k, injection);
        assert((seq![s[i]] + u).subrange(k + 1, k + 1 + injection.len()) =~= u.subrange(
            k,
            k + injection.len(),
        ));
        assert(occurs_at(seq![s[i]] + u, k + 1, injection));
    }
}

/// The injection starts with the start marker, so a document that received
/// it reads as patched.
pub proof fn lemma_injection_marked(settings_json: Seq<char>, dir: Seq<char>, windows: bool)
    ensures
        contains(injection_text(settings_json, dir, windows), MARKER_START@),
{
    let inj = injection_text(settings_json, dir, windows);
    let rest = inj.subrange(MARKER_START@.len() as int, inj.len() as int);
    assert(inj =~= Seq::<char>::empty() + MARKER_START@ + rest);
    lemma_contains_concat(Seq::empty(), MARKER_START@, rest);
}

/// What precedes the serialized settings in the block.
pub open spec fn settings_prefix() -> Seq<char> {
    MARKER_START@ + NEWLINE@ + LINE_INDENT@ + SCRIPT_OPEN@ + WINDOW_PREFIX@ + SETTINGS_GLOBAL@
        + ASSIGN@
}

/// What follows the serialized settings in the block.
pub open spec fn settings_tail(dir: Seq<char>, windows: bool) -> Seq<char> {
    SETTINGS_SUFFIX@ + NEWLINE@ + preload_line(dir, windows) + NEWLINE@ + stylesheet_line(
        dir,
        windows,
    ) + NEWLINE@ + LINE_INDENT@ + MARKER_END@
}

#[verifier::rlimit(60)]
proof fn lemma_injection_shape(settings_json: Seq<char>, dir: Seq<char>, windows: bool)
    ensures
        injection_text(settings_json, dir, windows) == settings_prefix() + settings_json
            + settings_tail(dir, windows),
{
    assert(injection_text(settings_json, dir, windows) =~= settings_prefix() + settings_json
        + settings_tail(dir, windows));
}

/// Different settings give different injected blocks: the block carries the
/// serialized settings verbatim, so a changed configuration always shows in
/// the next patch.
pub proof fn lemma_injection_reflects_settings(
    s1: Seq<char>,
    s2: Seq<char>,
    dir: Seq<char>,
    windows: bool,
)
    requires
        s1 != s2,
    ensures
        injection_text(s1, dir, windows) != injection_text(s2, dir, windows),
{
    lemma_injection_shape(s1, dir, windows);
    lemma_injection_shape(s2, dir, windows);
    let a = settings_prefix();
    let tail = settings_tail(dir, windows);
    let t1 = a + s1 + tail;
    let t2 = a + s2 + tail;
    if t1 == t2 {
        assert(t1.len() == a.len() + s1.len() + tail.len());
        assert(t2.len() == a.len() + s2.len() + tail.len());
        assert(t1.subrange(a.len() as int, (a.len() + s1.len()) as int) =~= s1);
        assert(t2.subrange(a.len() as int, (a.len() + s2.len()) as int) =~= s2);
    }
}

} // verus!
