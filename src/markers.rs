//! The injection markers, the "is patched" predicate and the line-oriented
//! removal of injected content.
use vstd::prelude::*;
use crate::text::{
    chars_of, contains, contains_in, join_lines, lemma_newline_from_bounds, line_text, lines,
    lines_from, newline_from, push_char, push_range,
};

verus! {

/// First line of a current-format injection block.
pub const MARKER_START: &'static str = "<!-- uprooted:start -->";

/// Last line of a current-format injection block.
pub const MARKER_END: &'static str = "<!-- uprooted:end -->";

/// Single marker left by older installs.
pub const LEGACY_MARKER: &'static str = "<!-- uprooted -->";

/// File name stem of the deployed preload script; marker-less installs are
/// recognised by it.
pub const PRELOAD_NAME: &'static str = "uprooted-preload";

/// File name of the deployed stylesheet.
pub const CSS_NAME: &'static str = "uprooted.css";

/// Name of the window global that carries the settings.
pub const SETTINGS_GLOBAL: &'static str = "__UPROOTED_SETTINGS__";

pub const SCRIPT_OPEN: &'static str = "<script";

pub const SCRIPT_CLOSE: &'static str = "</script";

pub const LINK_OPEN: &'static str = "<link";

/// A document is patched when it holds the start marker, the legacy marker or
/// the preload script's name.
pub open spec fn is_patched_text(s: Seq<char>) -> bool {
    contains(s, MARKER_START@) || contains(s, LEGACY_MARKER@) || contains(s, PRELOAD_NAME@)
}

/// A script tag that loads the preload script.
pub open spec fn is_preload_script_line(l: Seq<char>) -> bool {
    contains(l, PRELOAD_NAME@) && (contains(l, SCRIPT_OPEN@) || contains(l, SCRIPT_CLOSE@))
}

/// A link tag that loads the stylesheet.
pub open spec fn is_stylesheet_line(l: Seq<char>) -> bool {
    contains(l, CSS_NAME@) && contains(l, LINK_OPEN@)
}

/// A script tag that sets the settings global.
pub open spec fn is_settings_script_line(l: Seq<char>) -> bool {
    contains(l, SETTINGS_GLOBAL@) && contains(l, SCRIPT_OPEN@)
}

/// A line that is removed wherever it stands: the legacy marker, or one of
/// the tags that marker-less installs wrote.
pub open spec fn is_signature_line(l: Seq<char>) -> bool {
    contains(l, LEGACY_MARKER@) || is_preload_script_line(l) || is_stylesheet_line(l)
        || is_settings_script_line(l)
}

/// The lines kept by the removal pass, `inside` telling whether the pass is
/// within a start/end block when it reaches `ls[0]`.
pub open spec fn strip_lines(ls: Seq<Seq<char>>, inside: bool) -> Seq<Seq<char>>
    decreases ls.len(),
{
    if ls.len() == 0 {
        Seq::empty()
    } else {
        let l = ls[0];
        let rest = ls.subrange(1, ls.len() as int);
        if contains(l, MARKER_START@) {
            strip_lines(rest, true)
        } else if contains(l, MARKER_END@) {
            strip_lines(rest, false)
        } else if inside || is_signature_line(l) {
            strip_lines(rest, inside)
        } else {
            seq![l] + strip_lines(rest, inside)
        }
    }
}

/// The document with all injected content removed: its lines, less the block
/// lines and signature lines, joined with `'\n'`.
pub open spec fn stripped(s: Seq<char>) -> Seq<char> {
    join_lines(strip_lines(lines(s), false))
}

/// The marker and signature texts, as characters.
struct Matchers {
    start: Vec<char>,
    end: Vec<char>,
    legacy: Vec<char>,
    preload: Vec<char>,
    css: Vec<char>,
    global: Vec<char>,
    script_open: Vec<char>,
    script_close: Vec<char>,
    link: Vec<char>,
}

impl Matchers {
    spec fn wf(&self) -> bool {
        &&& self.start@ == MARKER_START@
        &&& self.end@ == MARKER_END@
        &&& self.legacy@ == LEGACY_MARKER@
        &&& self.preload@ == PRELOAD_NAME@
        &&& self.css@ == CSS_NAME@
        &&& self.global@ == SETTINGS_GLOBAL@
        &&& self.script_open@ == SCRIPT_OPEN@
        &&& self.script_close@ == SCRIPT_CLOSE@
        &&& self.link@ == LINK_OPEN@
    }

    fn new() -> (r: Matchers)
        ensures
            r.wf(),
    {
        Matchers {
            start: chars_of(MARKER_START),
            end: chars_of(MARKER_END),
            legacy: chars_of(LEGACY_MARKER),
            preload: chars_of(PRELOAD_NAME),
            css: chars_of(CSS_NAME),
            global: chars_of(SETTINGS_GLOBAL),
            script_open: chars_of(SCRIPT_OPEN),
            script_close: chars_of(SCRIPT_CLOSE),
            link: chars_of(LINK_OPEN),
        }
    }

    /// Whether `v[lo..hi]` is a signature line.
    fn signature_line(&self, v: &Vec<char>, lo: usize, hi: usize) -> (r: bool)
        requires
            self.wf(),
            lo <= hi <= v.len(),
        ensures
            r == is_signature_line(v@.subrange(lo as int, hi as int)),
    {
        if contains_in(v, lo, hi, &self.legacy) {
            return true;
        }
        let script_open = contains_in(v, lo, hi, &self.script_open);
        if contains_in(v, lo, hi, &self.preload) && (script_open || contains_in(
            v,
            lo,
            hi,
            &self.script_close,
        )) {
            return true;
        }
        if contains_in(v, lo, hi, &self.css) && contains_in(v, lo, hi, &self.link) {
            return true;
        }
        contains_in(v, lo, hi, &self.global) && script_open
    }
}

/// Whether the document holds an injection of any known format.
pub fn is_patched(content: &str) -> (r: bool)
    ensures
        r == is_patched_text(content@),
{
    let v = chars_of(content);
    contains_all_str(&v, MARKER_START) || contains_all_str(&v, LEGACY_MARKER)
        || contains_all_str(&v, PRELOAD_NAME)
}

fn contains_all_str(v: &Vec<char>, p: &str) -> (r: bool)
    ensures
        r == contains(v@, p@),
{
    let pv = chars_of(p);
    crate::text::contains_all(v, &pv)
}

/// Removes injected content line by line: every line from a start marker to
/// the next end marker (both included), every legacy-marker line, and every
/// tag line that a marker-less install wrote. The kept lines are joined with
/// `'\n'`.
pub fn strip_injection(content: &str) -> (r: String)
    ensures
        r@ == stripped(content@),
{
    let v = chars_of(content);
    let m = Matchers::new();
    let n = v.len();
    let mut out = String::new();
    let ghost mut kept: Seq<Seq<char>> = Seq::empty();
    let mut any = false;
    let mut inside = false;
    let mut pos: usize = 0;
    while pos < n
        invariant
            pos <= n,
            n == v.len(),
            v@ == content@,
            m.wf(),
            kept + strip_lines(lines_from(v@, pos as int), inside) == strip_lines(
                lines(v@),
                false,
            ),
            out@ == join_lines(kept),
            any == (kept.len() > 0),
        decreases n - pos,
    {
        let mut j = pos;
        while j < n && v[j] != '\n'
            invariant
                pos <= j <= n,
                n == v.len(),
                newline_from(v@, pos as int) == newline_from(v@, j as int),
            decreases n - j,
        {
            j = j + 1;
        }
        proof {
            lemma_newline_from_bounds(v@, pos as int);
        }
        let end = if j < n && j > pos && v[j - 1] == '\r' {
            j - 1
        } else {
            j
        };
        let ghost line = v@.subrange(pos as int, end as int);
        let ghost rest = if j < n {
            lines_from(v@, j + 1)
        } else {
            Seq::<Seq<char>>::empty()
        };
        proof {
            assert(line == line_text(v@, pos as int, j as int));
            assert(lines_from(v@, pos as int) == seq![line] + rest);
            assert((seq![line] + rest)[0] == line);
            assert((seq![line] + rest).subrange(1, (seq![line] + rest).len() as int) =~= rest);
        }
        let ghost inside0 = inside;
        if contains_in(&v, pos, end, &m.start) {
            inside = true;
        } else if contains_in(&v, pos, end, &m.end) {
            inside = false;
        } else if inside || m.signature_line(&v, pos, end) {
        } else {
            if any {
                push_char(&mut out, '\n');
            }
            push_range(&mut out, &v, pos, end);
            proof {
                let k2 = kept.push(line);
                assert(k2.drop_last() =~= kept);
                if kept.len() == 0 {
                    assert(out@ =~= join_lines(k2));
                }
                assert(kept + (seq![line] + strip_lines(rest, inside0)) =~= k2 + strip_lines(
                    rest,
                    inside0,
                ));
                kept = k2;
            }
            any = true;
        }
        pos = if j < n {
            j + 1
        } else {
            n
        };
        assert(lines_from(v@, pos as int) == rest);
    }
    proof {
        assert(kept + Seq::<Seq<char>>::empty() =~= kept);
    }
    out
}

} // verus!
