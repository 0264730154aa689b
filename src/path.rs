//! Paths as text, read with the rules of Windows paths (which accept both `\`
//! and `/` as separators and know drive, UNC, device and verbatim prefixes),
//! normalised lexically and displayed in one opinionated form.

use vstd::prelude::*;
use crate::source::chars_of;
use crate::text::{push_char, string_from};

verus! {

/// One component of a path.
#[derive(Debug, Clone, PartialEq, Eq)]
pub enum PathComponent {
    /// A drive, UNC or device prefix, in its plain form (`C:`, `\\server\share`, `\\.\name`).
    Prefix(String),
    /// A verbatim prefix `\\?\name`: the name.
    Verbatim(String),
    /// The root separator.
    RootDir,
    /// A leading `.`.
    CurDir,
    /// `..`.
    ParentDir,
    /// Any other name.
    Normal(String),
}

/// The mathematical form of a [`PathComponent`].
pub ghost enum ComponentModel {
    Prefix(Seq<char>),
    Verbatim(Seq<char>),
    RootDir,
    CurDir,
    ParentDir,
    Normal(Seq<char>),
}

pub open spec fn component_model(c: PathComponent) -> ComponentModel {
    match c {
        PathComponent::Prefix(t) => ComponentModel::Prefix(t@),
        PathComponent::Verbatim(t) => ComponentModel::Verbatim(t@),
        PathComponent::RootDir => ComponentModel::RootDir,
        PathComponent::CurDir => ComponentModel::CurDir,
        PathComponent::ParentDir => ComponentModel::ParentDir,
        PathComponent::Normal(t) => ComponentModel::Normal(t@),
    }
}

pub open spec fn components_model(v: Seq<PathComponent>) -> Seq<ComponentModel> {
    v.map_values(|c: PathComponent| component_model(c))
}

/// A separator: `\`, and `/` too unless the path is verbatim.
pub open spec fn is_separator(c: char, verbatim: bool) -> bool {
    c == '\\' || (!verbatim && c == '/')
}

/// The index of the first separator at or after `i`, or the length of `s`.
pub open spec fn segment_end(s: Seq<char>, i: int, verbatim: bool) -> int
    decreases s.len() - i,
{
    if 0 <= i < s.len() && !is_separator(s[i], verbatim) {
        segment_end(s, i + 1, verbatim)
    } else {
        i
    }
}

pub proof fn lemma_segment_end_bounds(s: Seq<char>, i: int, verbatim: bool)
    requires
        0 <= i <= s.len(),
    ensures
        i <= segment_end(s, i, verbatim) <= s.len(),
        segment_end(s, i, verbatim) < s.len() ==> is_separator(s[segment_end(s, i, verbatim)], verbatim),
    decreases s.len() - i,
{
    if 0 <= i < s.len() && !is_separator(s[i], verbatim) {
        lemma_segment_end_bounds(s, i + 1, verbatim);
    }
}

pub open spec fn is_ascii_letter(c: char) -> bool {
    ('a' as u32 <= c as u32 <= 'z' as u32) || ('A' as u32 <= c as u32 <= 'Z' as u32)
}

/// The prefix a path starts with: the component, where it ends, whether the
/// path is verbatim, and whether the prefix implies a root.
pub ghost struct PrefixModel {
    pub component: Option<ComponentModel>,
    pub end: int,
    pub verbatim: bool,
    pub implicit_root: bool,
}

/// `\\` followed by `server`, `\` and `share`.
pub open spec fn unc_text(server: Seq<char>, share: Seq<char>) -> Seq<char> {
    seq!['\\', '\\'] + server + seq!['\\'] + share
}

/// The end of the share after a server ending at `e1`, and the share itself.
pub open spec fn share_end(s: Seq<char>, e1: int, verbatim: bool) -> int {
    if e1 < s.len() {
        segment_end(s, e1 + 1, verbatim)
    } else {
        e1
    }
}

pub open spec fn share_start(s: Seq<char>, e1: int) -> int {
    if e1 < s.len() {
        e1 + 1
    } else {
        e1
    }
}

pub open spec fn prefix_of(s: Seq<char>) -> PrefixModel {
    if s.len() >= 2 && s[0] == '\\' && s[1] == '\\' {
        if s.len() >= 4 && s[2] == '?' && s[3] == '\\' {
            if s.len() >= 8 && s[4] == 'U' && s[5] == 'N' && s[6] == 'C' && s[7] == '\\' {
                let e1 = segment_end(s, 8, true);
                let e2 = share_end(s, e1, true);
                PrefixModel {
                    component: Some(
                        ComponentModel::Prefix(unc_text(s.subrange(8, e1), s.subrange(share_start(s, e1), e2))),
                    ),
                    end: e2,
                    verbatim: true,
                    implicit_root: true,
                }
            } else {
                let e = segment_end(s, 4, true);
                if e == 6 && is_ascii_letter(s[4]) && s[5] == ':' {
                    PrefixModel {
                        component: Some(ComponentModel::Prefix(s.subrange(4, 6))),
                        end: 6,
                        verbatim: true,
                        implicit_root: false,
                    }
                } else {
                    PrefixModel {
                        component: Some(ComponentModel::Verbatim(s.subrange(4, e))),
                        end: e,
                        verbatim: true,
                        implicit_root: true,
                    }
                }
            }
        } else if s.len() >= 4 && s[2] == '.' && s[3] == '\\' {
            let e = segment_end(s, 4, false);
            PrefixModel {
                component: Some(ComponentModel::Prefix(seq!['\\', '\\', '.', '\\'] + s.subrange(4, e))),
                end: e,
                verbatim: false,
                implicit_root: true,
            }
        } else {
            let e1 = segment_end(s, 2, false);
            let e2 = share_end(s, e1, false);
            if e1 > 2 && e2 > share_start(s, e1) {
                PrefixModel {
                    component: Some(
                        ComponentModel::Prefix(unc_text(s.subrange(2, e1), s.subrange(share_start(s, e1), e2))),
                    ),
                    end: e2,
                    verbatim: false,
                    implicit_root: true,
                }
            } else {
                PrefixModel { component: None, end: 0, verbatim: false, implicit_root: false }
            }
        }
    } else if s.len() >= 2 && is_ascii_letter(s[0]) && s[1] == ':' {
        PrefixModel {
            component: Some(ComponentModel::Prefix(s.subrange(0, 2))),
            end: 2,
            verbatim: false,
            implicit_root: false,
        }
    } else {
        PrefixModel { component: None, end: 0, verbatim: false, implicit_root: false }
    }
}

/// The component a segment between separators stands for, if any: empty
/// segments and `.` (outside verbatim paths) stand for none.
pub open spec fn segment_component(seg: Seq<char>, verbatim: bool) -> Seq<ComponentModel> {
    if seg.len() == 0 {
        Seq::empty()
    } else if seg == seq!['.'] {
        if verbatim {
            seq![ComponentModel::CurDir]
        } else {
            Seq::empty()
        }
    } else if seg == seq!['.', '.'] {
        seq![ComponentModel::ParentDir]
    } else {
        seq![ComponentModel::Normal(seg)]
    }
}

/// The components of the segments from `i` on.
pub open spec fn body_components(s: Seq<char>, i: int, verbatim: bool) -> Seq<ComponentModel>
    decreases s.len() - i,
{
    if 0 <= i < s.len() {
        let e = segment_end(s, i, verbatim);
        proof {
            lemma_segment_end_bounds(s, i, verbatim);
        }
        if e < s.len() {
            segment_component(s.subrange(i, e), verbatim) + body_components(s, e + 1, verbatim)
        } else {
            segment_component(s.subrange(i, e), verbatim)
        }
    } else {
        Seq::empty()
    }
}

/// The components of a path, as Windows reads them.
pub open spec fn components_of(s: Seq<char>) -> Seq<ComponentModel> {
    let p = prefix_of(s);
    let physical_root = p.end < s.len() && is_separator(s[p.end], p.verbatim);
    let has_root = physical_root || (p.implicit_root && !p.verbatim);
    let lead = match p.component {
        Some(c) => seq![c],
        None => Seq::empty(),
    };
    let root = if has_root {
        seq![ComponentModel::RootDir]
    } else {
        Seq::empty()
    };
    let cur = if !physical_root && !p.implicit_root && p.end < s.len() && s[p.end] == '.' && (p.end + 1
        == s.len() || is_separator(s[p.end + 1], p.verbatim)) {
        seq![ComponentModel::CurDir]
    } else {
        Seq::empty()
    };
    let start = if physical_root {
        p.end + 1
    } else {
        p.end
    };
    lead + root + cur + body_components(s, start, p.verbatim)
}

fn segment_end_at(s: &Vec<char>, i: usize, verbatim: bool) -> (r: usize)
    requires
        i <= s@.len(),
    ensures
        r == segment_end(s@, i as int, verbatim),
        i <= r <= s@.len(),
{
    proof {
        lemma_segment_end_bounds(s@, i as int, verbatim);
    }
    let mut e = i;
    while e < s.len() && !(s[e] == '\\' || (!verbatim && s[e] == '/'))
        invariant
            i <= e <= s@.len(),
            segment_end(s@, e as int, verbatim) == segment_end(s@, i as int, verbatim),
        decreases s@.len() - e,
    {
        e = e + 1;
    }
    e
}

fn ascii_letter(c: char) -> (r: bool)
    ensures
        r == is_ascii_letter(c),
{
    ('a' <= c && c <= 'z') || ('A' <= c && c <= 'Z')
}

/// The plain form of a UNC prefix.
fn unc_string(s: &Vec<char>, server_start: usize, server_end: usize, share_from: usize, share_to: usize) -> (r:
    String)
    requires
        server_start <= server_end <= s@.len(),
        share_from <= share_to <= s@.len(),
    ensures
        r@ == unc_text(
            s@.subrange(server_start as int, server_end as int),
            s@.subrange(share_from as int, share_to as int),
        ),
{
    let mut out = String::new();
    push_char(&mut out, '\\');
    push_char(&mut out, '\\');
    out.append(string_from(s, server_start, server_end).as_str());
    push_char(&mut out, '\\');
    out.append(string_from(s, share_from, share_to).as_str());
    assert(out@ =~= unc_text(
        s@.subrange(server_start as int, server_end as int),
        s@.subrange(share_from as int, share_to as int),
    ));
    out
}

pub open spec fn optional_component(c: Option<PathComponent>) -> Option<ComponentModel> {
    match c {
        Some(c) => Some(component_model(c)),
        None => None,
    }
}

fn prefix_at(s: &Vec<char>) -> (r: (Option<PathComponent>, usize, bool, bool))
    ensures
        optional_component(r.0) == prefix_of(s@).component,
        r.1 == prefix_of(s@).end,
        r.2 == prefix_of(s@).verbatim,
        r.3 == prefix_of(s@).implicit_root,
        r.1 <= s@.len(),
{
    let n = s.len();
    if n >= 2 && s[0] == '\\' && s[1] == '\\' {
        if n >= 4 && s[2] == '?' && s[3] == '\\' {
            if n >= 8 && s[4] == 'U' && s[5] == 'N' && s[6] == 'C' && s[7] == '\\' {
                let e1 = segment_end_at(s, 8, true);
                let from = if e1 < n { e1 + 1 } else { e1 };
                let e2 = if e1 < n { segment_end_at(s, e1 + 1, true) } else { e1 };
                (Some(PathComponent::Prefix(unc_string(s, 8, e1, from, e2))), e2, true, true)
            } else {
                let e = segment_end_at(s, 4, true);
                if e == 6 && ascii_letter(s[4]) && s[5] == ':' {
                    (Some(PathComponent::Prefix(string_from(s, 4, 6))), 6, true, false)
                } else {
                    (Some(PathComponent::Verbatim(string_from(s, 4, e))), e, true, true)
                }
            }
        } else if n >= 4 && s[2] == '.' && s[3] == '\\' {
            let e = segment_end_at(s, 4, false);
            let mut text = String::new();
            push_char(&mut text, '\\');
            push_char(&mut text, '\\');
            push_char(&mut text, '.');
            push_char(&mut text, '\\');
            text.append(string_from(s, 4, e).as_str());
            assert(text@ =~= seq!['\\', '\\', '.', '\\'] + s@.subrange(4, e as int));
            (Some(PathComponent::Prefix(text)), e, false, true)
        } else {
            let e1 = segment_end_at(s, 2, false);
            let from = if e1 < n { e1 + 1 } else { e1 };
            let e2 = if e1 < n { segment_end_at(s, e1 + 1, false) } else { e1 };
            if e1 > 2 && e2 > from {
                (Some(PathComponent::Prefix(unc_string(s, 2, e1, from, e2))), e2, false, true)
            } else {
                (None, 0, false, false)
            }
        }
    } else if n >= 2 && ascii_letter(s[0]) && s[1] == ':' {
        (Some(PathComponent::Prefix(string_from(s, 0, 2))), 2, false, false)
    } else {
        (None, 0, false, false)
    }
}

/// Appends the component of the segment `s[from..to]`, if it stands for one.
fn push_segment(out: &mut Vec<PathComponent>, s: &Vec<char>, from: usize, to: usize, verbatim: bool)
    requires
        from <= to <= s@.len(),
    ensures
        components_model(final(out)@) == components_model(old(out)@) + segment_component(
            s@.subrange(from as int, to as int),
            verbatim,
        ),
{
    let ghost seg = s@.subrange(from as int, to as int);
    let ghost before = components_model(out@);
    if to == from {
        assert(components_model(out@) =~= before + segment_component(seg, verbatim));
        return;
    }
    if to - from == 1 && s[from] == '.' {
        assert(seg =~= seq!['.']);
        if verbatim {
            out.push(PathComponent::CurDir);
        }
    } else if to - from == 2 && s[from] == '.' && s[from + 1] == '.' {
        assert(seg =~= seq!['.', '.']);
        out.push(PathComponent::ParentDir);
    } else {
        if to - from == 1 {
            assert(seg.len() == 1 && seg[0] != '.');
            assert(seg != seq!['.']);
        }
        if to - from == 2 {
            assert(seg[0] != '.' || seg[1] != '.');
            assert(seg != seq!['.', '.']);
        }
        out.push(PathComponent::Normal(string_from(s, from, to)));
    }
    assert(components_model(out@) =~= before + segment_component(seg, verbatim));
}

/// The components of a path, read with the rules of Windows paths.
pub fn path_components(path: &str) -> (r: Vec<PathComponent>)
    ensures
        components_model(r@) == components_of(path@),
{
    let s = chars_of(path);
    let (prefix, end, verbatim, implicit_root) = prefix_at(&s);
    let n = s.len();
    let physical_root = end < n && (s[end] == '\\' || (!verbatim && s[end] == '/'));
    let mut out: Vec<PathComponent> = Vec::new();
    match prefix {
        Some(c) => out.push(c),
        None => {},
    }
    if physical_root || (implicit_root && !verbatim) {
        out.push(PathComponent::RootDir);
    }
    if !physical_root && !implicit_root && end < n && s[end] == '.' && (end + 1 == n || s[end + 1] == '\\' || (
    !verbatim && s[end + 1] == '/')) {
        out.push(PathComponent::CurDir);
    }
    let ghost head = components_model(out@);
    let mut i: usize = if physical_root { end + 1 } else { end };
    let ghost start = i as int;
    assert(head + body_components(s@, start, verbatim) =~= components_of(path@));
    while i < n
        invariant
            n == s@.len(),
            i <= n,
            components_model(out@) + body_components(s@, i as int, verbatim) == components_of(path@),
        decreases n - i,
    {
        let e = segment_end_at(&s, i, verbatim);
        let ghost before = components_model(out@);
        push_segment(&mut out, &s, i, e, verbatim);
        if e >= n {
            assert(body_components(s@, i as int, verbatim) == segment_component(s@.subrange(i as int, e as int), verbatim));
            assert(components_model(out@) =~= components_model(out@) + body_components(s@, n as int, verbatim));
            i = n;
        } else {
            assert(body_components(s@, i as int, verbatim) == segment_component(s@.subrange(i as int, e as int), verbatim)
                + body_components(s@, e + 1, verbatim));
            assert(before + body_components(s@, i as int, verbatim) =~= components_model(out@)
                + body_components(s@, e + 1, verbatim));
            i = e + 1;
        }
    }
    assert(components_model(out@) =~= components_model(out@) + body_components(s@, i as int, verbatim));
    out
}

/// One step of lexical normalisation: `.` goes, `..` cancels a preceding
/// name, a root is kept only at the start or after a prefix, and a verbatim
/// prefix becomes a plain name.
pub open spec fn normalize_step(out: Seq<ComponentModel>, c: ComponentModel) -> Seq<ComponentModel> {
    match c {
        ComponentModel::CurDir => out,
        ComponentModel::ParentDir => if out.len() > 0 && out.last() is Normal {
            out.drop_last()
        } else {
            out.push(ComponentModel::ParentDir)
        },
        ComponentModel::RootDir => if out.len() == 0 || out.last() is Prefix {
            out.push(ComponentModel::RootDir)
        } else {
            out
        },
        ComponentModel::Verbatim(t) => out.push(ComponentModel::Normal(t)),
        _ => out.push(c),
    }
}

/// The components left after normalising `cs` from the first to the last.
pub open spec fn normalized(cs: Seq<ComponentModel>) -> Seq<ComponentModel>
    decreases cs.len(),
{
    if cs.len() == 0 {
        Seq::empty()
    } else {
        normalize_step(normalized(cs.drop_last()), cs.last())
    }
}

/// The text of one component.
pub open spec fn component_text(c: ComponentModel, sep: char) -> Seq<char> {
    match c {
        ComponentModel::Prefix(t) => t,
        ComponentModel::Verbatim(t) => t,
        ComponentModel::RootDir => seq![sep],
        ComponentModel::CurDir => seq!['.'],
        ComponentModel::ParentDir => seq!['.', '.'],
        ComponentModel::Normal(t) => t,
    }
}

/// Whether a separator goes between the components `prev` and `c`.
pub open spec fn needs_separator(prev: Seq<ComponentModel>, c: ComponentModel) -> bool {
    prev.len() > 0 && !(prev.last() is Prefix) && !(prev.last() is RootDir) && !(c is RootDir)
}

/// The components written out as a Windows path.
pub open spec fn joined(cs: Seq<ComponentModel>, sep: char) -> Seq<char>
    decreases cs.len(),
{
    if cs.len() == 0 {
        Seq::empty()
    } else {
        joined(cs.drop_last(), sep) + (if needs_separator(cs.drop_last(), cs.last()) {
            seq![sep]
        } else {
            Seq::empty()
        }) + component_text(cs.last(), sep)
    }
}

/// The shown parts of `cs` joined by `sep`, and whether any part was shown. A
/// root shows as an empty part, or not at all after a prefix.
pub open spec fn shown(cs: Seq<ComponentModel>, prefixed: bool) -> (Seq<char>, bool)
    decreases cs.len(),
{
    if cs.len() == 0 {
        (Seq::empty(), false)
    } else {
        let (text, any) = shown(cs.drop_last(), prefixed);
        let c = cs.last();
        if prefixed && c is RootDir {
            (text, any)
        } else {
            let part = if c is RootDir {
                Seq::empty()
            } else {
                component_text(c, '\\')
            };
            let sep = if prefixed {
                seq!['\\']
            } else {
                seq!['/']
            };
            (text + (if any {
                sep
            } else {
                Seq::empty()
            }) + part, true)
        }
    }
}

/// The opinionated display of normalised components: `.` for none; with a
/// prefix, parts joined by `\`; otherwise by `/`.
pub open spec fn displayed(cs: Seq<ComponentModel>) -> Seq<char> {
    if cs.len() == 0 {
        seq!['.']
    } else {
        shown(cs, cs[0] is Prefix).0
    }
}

fn copy_component(c: &PathComponent) -> (r: PathComponent)
    ensures
        component_model(r) == component_model(*c),
{
    match c {
        PathComponent::Prefix(t) => PathComponent::Prefix(t.as_str().to_string()),
        PathComponent::Verbatim(t) => PathComponent::Verbatim(t.as_str().to_string()),
        PathComponent::RootDir => PathComponent::RootDir,
        PathComponent::CurDir => PathComponent::CurDir,
        PathComponent::ParentDir => PathComponent::ParentDir,
        PathComponent::Normal(t) => PathComponent::Normal(t.as_str().to_string()),
    }
}

/// Normalises components lexically.
pub fn normalize_components(cs: &Vec<PathComponent>) -> (r: Vec<PathComponent>)
    ensures
        components_model(r@) == normalized(components_model(cs@)),
{
    let mut out: Vec<PathComponent> = Vec::new();
    let mut i: usize = 0;
    while i < cs.len()
        invariant
            i <= cs@.len(),
            components_model(out@) == normalized(components_model(cs@.take(i as int))),
        decreases cs@.len() - i,
    {
        let ghost before = components_model(out@);
        assert(components_model(cs@.take(i + 1)).drop_last() =~= components_model(cs@.take(i as int)));
        assert(components_model(cs@.take(i + 1)).last() == component_model(cs@[i as int]));
        let n = out.len();
        match &cs[i] {
            PathComponent::CurDir => {},
            PathComponent::ParentDir => {
                let after_name = n > 0 && match &out[n - 1] {
                    PathComponent::Normal(_) => true,
                    _ => false,
                };
                if after_name {
                    out.pop();
                    assert(components_model(out@) =~= before.drop_last());
                } else {
                    out.push(PathComponent::ParentDir);
                }
            },
            PathComponent::RootDir => {
                let keep = n == 0 || match &out[n - 1] {
                    PathComponent::Prefix(_) => true,
                    _ => false,
                };
                if keep {
                    out.push(PathComponent::RootDir);
                }
            },
            PathComponent::Verbatim(t) => {
                out.push(PathComponent::Normal(t.as_str().to_string()));
            },
            c => {
                out.push(copy_component(c));
            },
        }
        assert(components_model(out@) =~= normalize_step(before, component_model(cs@[i as int])));
        i = i + 1;
    }
    assert(cs@.take(i as int) =~= cs@);
    out
}

fn push_component_text(out: &mut String, c: &PathComponent, sep: char)
    ensures
        final(out)@ == old(out)@ + component_text(component_model(*c), sep),
{
    match c {
        PathComponent::Prefix(t) => out.append(t.as_str()),
        PathComponent::Verbatim(t) => out.append(t.as_str()),
        PathComponent::RootDir => push_char(out, sep),
        PathComponent::CurDir => push_char(out, '.'),
        PathComponent::ParentDir => {
            push_char(out, '.');
            push_char(out, '.');
        },
        PathComponent::Normal(t) => out.append(t.as_str()),
    }
    assert(out@ =~= old(out)@ + component_text(component_model(*c), sep));
}

/// The components written out as a Windows path.
fn joined_string(cs: &Vec<PathComponent>, separator: char) -> (r: String)
    ensures
        r@ == joined(components_model(cs@), separator),
{
    let mut out = String::new();
    let mut i: usize = 0;
    while i < cs.len()
        invariant
            i <= cs@.len(),
            out@ == joined(components_model(cs@.take(i as int)), separator),
        decreases cs@.len() - i,
    {
        let ghost prev = components_model(cs@.take(i as int));
        assert(components_model(cs@.take(i + 1)).drop_last() =~= prev);
        assert(components_model(cs@.take(i + 1)).last() == component_model(cs@[i as int]));
        let separate = i > 0 && match &cs[i - 1] {
            PathComponent::Prefix(_) | PathComponent::RootDir => false,
            _ => true,
        } && match &cs[i] {
            PathComponent::RootDir => false,
            _ => true,
        };
        assert(i > 0 ==> prev.last() == component_model(cs@[i - 1]));
        assert(separate == needs_separator(prev, component_model(cs@[i as int])));
        if separate {
            push_char(&mut out, separator);
        }
        push_component_text(&mut out, &cs[i], separator);
        i = i + 1;
        assert(out@ =~= joined(components_model(cs@.take(i as int)), separator));
    }
    assert(cs@.take(i as int) =~= cs@);
    out
}

/// Relies on `std::path::MAIN_SEPARATOR`: the separator of the platform the
/// program runs on, `/` on Unix and `\\` on Windows.
#[verifier::external_body]
fn host_separator() -> (r: char)
    ensures
        r == '/' || r == '\\',
{
    std::path::MAIN_SEPARATOR
}

/// Normalise a path using only its components, written out with `separator`:
/// `.` is dropped, `..` cancels the name before it, and a verbatim `\\?\`
/// prefix is stripped. Symbolic links are not looked at.
pub fn normalize_path_with(path: &str, separator: char) -> (r: String)
    ensures
        r@ == joined(normalized(components_of(path@)), separator),
{
    joined_string(&normalize_components(&path_components(path)), separator)
}

/// [`normalize_path_with`] the separator of the platform the program runs on.
pub fn normalize_path(path: &str) -> (r: String)
    ensures
        r@ == joined(normalized(components_of(path@)), '/') || r@ == joined(
            normalized(components_of(path@)),
            '\\',
        ),
{
    normalize_path_with(path, host_separator())
}

/// Opinionated display for a path: normalised, with `\` between the parts
/// of a prefixed path and `/` between those of any other; `.` if nothing is left.
pub fn display_path(path: &str) -> (r: String)
    ensures
        r@ == displayed(normalized(components_of(path@))),
{
    let cs = normalize_components(&path_components(path));
    if cs.len() == 0 {
        let mut out = String::new();
        push_char(&mut out, '.');
        assert(out@ =~= seq!['.']);
        return out;
    }
    let prefixed = match &cs[0] {
        PathComponent::Prefix(_) => true,
        _ => false,
    };
    let mut out = String::new();
    let mut any = false;
    let mut i: usize = 0;
    while i < cs.len()
        invariant
            i <= cs@.len(),
            cs@.len() > 0,
            prefixed == (components_model(cs@)[0] is Prefix),
            (out@, any) == shown(components_model(cs@.take(i as int)), prefixed),
        decreases cs@.len() - i,
    {
        let ghost prev = components_model(cs@.take(i as int));
        assert(components_model(cs@.take(i + 1)).drop_last() =~= prev);
        assert(components_model(cs@.take(i + 1)).last() == component_model(cs@[i as int]));
        let is_root = match &cs[i] {
            PathComponent::RootDir => true,
            _ => false,
        };
        if !(prefixed && is_root) {
            if any {
                push_char(&mut out, if prefixed { '\\' } else { '/' });
            }
            if !is_root {
                push_component_text(&mut out, &cs[i], '\\');
            }
            any = true;
        }
        i = i + 1;
        assert(out@ =~= shown(components_model(cs@.take(i as int)), prefixed).0);
    }
    assert(cs@.take(i as int) =~= cs@);
    out
}

/// The number of leading components that `a` and `b` share, from `i` on.
pub open spec fn shared_from(a: Seq<ComponentModel>, b: Seq<ComponentModel>, i: int) -> int
    decreases a.len() - i,
{
    if 0 <= i < a.len() && i < b.len() && a[i] == b[i] {
        shared_from(a, b, i + 1)
    } else {
        i
    }
}

/// The components that lead from `source` to `target`: a `..` for each
/// component of `source` past the part they share, then the rest of
/// `target`; `.` if that is nothing.
pub open spec fn relative_components(source: Seq<ComponentModel>, target: Seq<ComponentModel>) -> Seq<
    ComponentModel,
> {
    let d = shared_from(source, target, 0);
    let out = Seq::new((source.len() - d) as nat, |k: int| ComponentModel::ParentDir) + target.skip(d);
    if out.len() == 0 {
        seq![ComponentModel::CurDir]
    } else {
        out
    }
}

fn same_component(a: &PathComponent, b: &PathComponent) -> (r: bool)
    ensures
        r == (component_model(*a) == component_model(*b)),
{
    match (a, b) {
        (PathComponent::Prefix(x), PathComponent::Prefix(y)) => crate::text::same_text(x.as_str(), y.as_str()),
        (PathComponent::Verbatim(x), PathComponent::Verbatim(y)) => crate::text::same_text(x.as_str(), y.as_str()),
        (PathComponent::Normal(x), PathComponent::Normal(y)) => crate::text::same_text(x.as_str(), y.as_str()),
        (PathComponent::RootDir, PathComponent::RootDir) => true,
        (PathComponent::CurDir, PathComponent::CurDir) => true,
        (PathComponent::ParentDir, PathComponent::ParentDir) => true,
        _ => false,
    }
}

proof fn lemma_components_push(v: Seq<PathComponent>, c: PathComponent)
    ensures
        components_model(v.push(c)) == components_model(v).push(component_model(c)),
{
    assert(components_model(v.push(c)) =~= components_model(v).push(component_model(c)));
}

/// The path that leads from `source` to `target`, both normalised first,
/// written out with the separator of the platform the program runs on.
pub fn relative_path(source: &str, target: &str) -> (r: String)
    ensures
        r@ == joined(
            relative_components(normalized(components_of(source@)), normalized(components_of(target@))),
            '/',
        ) || r@ == joined(
            relative_components(normalized(components_of(source@)), normalized(components_of(target@))),
            '\\',
        ),
{
    relative_path_with(source, target, host_separator())
}

/// The path that leads from `source` to `target`, both normalised first,
/// written out with `separator`. Neither is looked up on disk: resolve links
/// beforehand where they matter.
pub fn relative_path_with(source: &str, target: &str, separator: char) -> (r: String)
    ensures
        r@ == joined(
            relative_components(normalized(components_of(source@)), normalized(components_of(target@))),
            separator,
        ),
{
    let source = normalize_components(&path_components(source));
    let target = normalize_components(&path_components(target));
    let ghost a = components_model(source@);
    let ghost b = components_model(target@);
    let mut d: usize = 0;
    while d < source.len() && d < target.len() && same_component(&source[d], &target[d])
        invariant
            d <= source@.len(),
            d <= target@.len(),
            a == components_model(source@),
            b == components_model(target@),
            shared_from(a, b, d as int) == shared_from(a, b, 0),
        decreases source@.len() - d,
    {
        d = d + 1;
    }
    let mut out: Vec<PathComponent> = Vec::new();
    let mut k: usize = d;
    while k < source.len()
        invariant
            d <= k <= source@.len(),
            components_model(out@) == Seq::new((k - d) as nat, |j: int| ComponentModel::ParentDir),
        decreases source@.len() - k,
    {
        let ghost before = out@;
        out.push(PathComponent::ParentDir);
        proof {
            lemma_components_push(before, PathComponent::ParentDir);
        }
        k = k + 1;
        assert(components_model(out@) =~= Seq::new((k - d) as nat, |j: int| ComponentModel::ParentDir));
    }
    let ghost ups = components_model(out@);
    assert(ups + b.subrange(d as int, d as int) =~= ups);
    let mut k: usize = d;
    while k < target.len()
        invariant
            d <= k <= target@.len(),
            b == components_model(target@),
            components_model(out@) == ups + b.subrange(d as int, k as int),
        decreases target@.len() - k,
    {
        let ghost before = out@;
        let c = copy_component(&target[k]);
        out.push(c);
        proof {
            lemma_components_push(before, c);
        }
        k = k + 1;
        assert(components_model(out@) =~= ups + b.subrange(d as int, k as int));
    }
    assert(b.skip(d as int) =~= b.subrange(d as int, target@.len() as int));
    if out.len() == 0 {
        let ghost before = out@;
        out.push(PathComponent::CurDir);
        proof {
            lemma_components_push(before, PathComponent::CurDir);
        }
    }
    assert(components_model(out@) =~= relative_components(a, b));
    joined_string(&out, separator)
}

} // verus!
