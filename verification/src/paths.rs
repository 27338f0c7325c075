//! A path model: a path is a root flag and a sequence of named components.
//!
//! It follows the component view of `std::path::Path` on Unix: empty
//! components and `.` components are dropped, `..` stays a component of its
//! own. Joining, taking the parent, stripping a prefix and changing the
//! extension act on components as `Path` does.
use vstd::prelude::*;
use vstd::string::*;

use crate::text::{chars_eq, chars_of, owned};

verus! {

/// The abstract value of a path.
pub struct PathView {
    pub absolute: bool,
    pub parts: Seq<Seq<char>>,
}

/// The parent-directory component `..`.
pub open spec fn dot_dot() -> Seq<char> {
    seq!['.', '.']
}

/// A component kept by the model: non-empty, not `.`, without a separator.
pub open spec fn valid_part(p: Seq<char>) -> bool {
    &&& p.len() > 0
    &&& p != seq!['.']
    &&& !p.contains('/')
}

/// Every component is kept by the model.
pub open spec fn parts_ok(parts: Seq<Seq<char>>) -> bool {
    forall|i: int| 0 <= i < parts.len() ==> valid_part(#[trigger] parts[i])
}

/// Every component of the path is kept by the model.
pub open spec fn path_ok(p: PathView) -> bool {
    parts_ok(p.parts)
}

/// Index of the last occurrence of `c` in `s`, or -1.
pub open spec fn last_index_of(s: Seq<char>, c: char) -> int
    decreases s.len(),
{
    if s.len() == 0 {
        -1
    } else if s.last() == c {
        s.len() - 1
    } else {
        last_index_of(s.drop_last(), c)
    }
}

/// The extension of a file name: the text after the last `.`, unless the
/// name has no `.`, its only `.` is its first character, or it is `..`.
pub open spec fn name_extension(name: Seq<char>) -> Option<Seq<char>> {
    let i = last_index_of(name, '.');
    if name == dot_dot() || i <= 0 {
        None
    } else {
        Some(name.subrange(i + 1, name.len() as int))
    }
}

/// The stem of a file name: the name without its extension and its dot.
pub open spec fn name_stem(name: Seq<char>) -> Seq<char> {
    let i = last_index_of(name, '.');
    if name == dot_dot() || i <= 0 {
        name
    } else {
        name.subrange(0, i)
    }
}

/// The final component, unless there is none or it is `..`.
pub open spec fn file_name(p: PathView) -> Option<Seq<char>> {
    if p.parts.len() > 0 && p.parts.last() != dot_dot() {
        Some(p.parts.last())
    } else {
        None
    }
}

/// The extension of the final component.
pub open spec fn extension(p: PathView) -> Option<Seq<char>> {
    match file_name(p) {
        Some(n) => name_extension(n),
        None => None,
    }
}

/// The stem of the final component.
pub open spec fn file_stem(p: PathView) -> Option<Seq<char>> {
    match file_name(p) {
        Some(n) => Some(name_stem(n)),
        None => None,
    }
}

/// The path without its final component; `None` for a root or empty path.
pub open spec fn parent(p: PathView) -> Option<PathView> {
    if p.parts.len() == 0 {
        None
    } else {
        Some(PathView { absolute: p.absolute, parts: p.parts.drop_last() })
    }
}

/// `a` joined with `b`: `b` itself when it is absolute.
pub open spec fn join(a: PathView, b: PathView) -> PathView {
    if b.absolute {
        b
    } else {
        PathView { absolute: a.absolute, parts: a.parts + b.parts }
    }
}

/// `p` relative to `base`, when `base` is a leading part of `p`.
pub open spec fn strip_prefix(p: PathView, base: PathView) -> Option<PathView> {
    if !base.absolute && base.parts.len() == 0 {
        Some(p)
    } else if p.absolute == base.absolute && base.parts.len() <= p.parts.len() && p.parts.take(
        base.parts.len() as int,
    ) == base.parts {
        Some(PathView { absolute: false, parts: p.parts.skip(base.parts.len() as int) })
    } else {
        None
    }
}

/// The final component with its extension replaced by `ext` (no extension
/// when `ext` is empty).
pub open spec fn renamed_part(stem: Seq<char>, ext: Seq<char>) -> Seq<char> {
    if ext.len() == 0 {
        stem
    } else {
        stem + seq!['.'] + ext
    }
}

/// `p` with the extension of its final component set to `ext`; unchanged
/// when `p` has no file name. A final component that becomes `.` is dropped,
/// as `Path` does not keep it as a component.
pub open spec fn with_extension(p: PathView, ext: Seq<char>) -> PathView {
    match file_stem(p) {
        None => p,
        Some(stem) => {
            let last = renamed_part(stem, ext);
            if last == seq!['.'] {
                PathView { absolute: p.absolute, parts: p.parts.drop_last() }
            } else {
                PathView { absolute: p.absolute, parts: p.parts.drop_last().push(last) }
            }
        },
    }
}

/// Components joined by `/`.
pub open spec fn joined(parts: Seq<Seq<char>>) -> Seq<char>
    decreases parts.len(),
{
    if parts.len() == 0 {
        Seq::empty()
    } else if parts.len() == 1 {
        parts[0]
    } else {
        joined(parts.drop_last()) + seq!['/'] + parts.last()
    }
}

/// The text of a path.
pub open spec fn render(p: PathView) -> Seq<char> {
    if p.absolute {
        seq!['/'] + joined(p.parts)
    } else {
        joined(p.parts)
    }
}

/// A segment of a path text that becomes a component.
pub open spec fn keep_segment(seg: Seq<char>) -> bool {
    seg.len() > 0 && seg != seq!['.']
}

/// The components of a path text, read from its end.
pub open spec fn text_parts(s: Seq<char>) -> Seq<Seq<char>>
    decreases s.len(),
{
    let j = last_index_of(s, '/');
    let seg = s.subrange(j + 1, s.len() as int);
    let rest = if j < 0 || j >= s.len() {
        Seq::empty()
    } else {
        text_parts(s.subrange(0, j))
    };
    if keep_segment(seg) {
        rest.push(seg)
    } else {
        rest
    }
}

/// The path a text denotes.
pub open spec fn parse_text(s: Seq<char>) -> PathView {
    PathView { absolute: s.len() > 0 && s[0] == '/', parts: text_parts(s) }
}

pub proof fn lemma_last_index_of(s: Seq<char>, c: char)
    ensures
        -1 <= last_index_of(s, c) < s.len(),
        last_index_of(s, c) >= 0 ==> s[last_index_of(s, c)] == c,
        forall|k: int| last_index_of(s, c) < k < s.len() ==> s[k] != c,
    decreases s.len(),
{
    if s.len() > 0 && s.last() != c {
        lemma_last_index_of(s.drop_last(), c);
        assert forall|k: int| last_index_of(s, c) < k < s.len() implies s[k] != c by {
            if k < s.len() - 1 {
                assert(s[k] == s.drop_last()[k]);
            }
        }
    }
}

/// The last occurrence is determined by the position of `c` and the absence
/// of `c` after it.
pub proof fn lemma_last_index_of_at(s: Seq<char>, c: char, k: int)
    requires
        -1 <= k < s.len(),
        k >= 0 ==> s[k] == c,
        forall|m: int| k < m < s.len() ==> s[m] != c,
    ensures
        last_index_of(s, c) == k,
    decreases s.len(),
{
    if s.len() > 0 && k < s.len() - 1 {
        lemma_last_index_of_at(s.drop_last(), c, k);
    }
}

/// Components read from a text satisfy the model's rules.
pub proof fn lemma_text_parts_ok(s: Seq<char>)
    ensures
        parts_ok(text_parts(s)),
    decreases s.len(),
{
    lemma_last_index_of(s, '/');
    let j = last_index_of(s, '/');
    let seg = s.subrange(j + 1, s.len() as int);
    let rest = if j < 0 || j >= s.len() {
        Seq::<Seq<char>>::empty()
    } else {
        text_parts(s.subrange(0, j))
    };
    if j >= 0 {
        lemma_text_parts_ok(s.subrange(0, j));
    }
    assert(parts_ok(rest));
    assert(!seg.contains('/')) by {
        if seg.contains('/') {
            let k = choose|k: int| 0 <= k < seg.len() && seg[k] == '/';
            assert(s[j + 1 + k] == '/');
        }
    }
    if keep_segment(seg) {
        let all = rest.push(seg);
        assert forall|i: int| 0 <= i < all.len() implies valid_part(#[trigger] all[i]) by {
            if i < rest.len() {
                assert(all[i] == rest[i]);
            } else {
                assert(all[i] == seg);
            }
        }
        assert(text_parts(s) == all);
    } else {
        assert(text_parts(s) == rest);
    }
}

/// A path: an optional root followed by components.
#[derive(Debug)]
pub struct MPath {
    absolute: bool,
    parts: Vec<String>,
}

impl View for MPath {
    type V = PathView;

    closed spec fn view(&self) -> PathView {
        PathView { absolute: self.absolute, parts: self.parts@.map_values(|p: String| p@) }
    }
}

impl MPath {
    #[verifier::type_invariant]
    closed spec fn well_formed(self) -> bool {
        path_ok(self@)
    }

    /// The path's components satisfy the model's rules.
    pub fn check_ok(&self)
        ensures
            path_ok(self@),
    {
        proof {
            use_type_invariant(self);
        }
    }

    /// Whether the path starts at the root.
    pub fn is_absolute(&self) -> (b: bool)
        ensures
            b == self@.absolute,
    {
        self.absolute
    }

    /// The number of components.
    pub fn len(&self) -> (n: usize)
        ensures
            n == self@.parts.len(),
    {
        self.parts.len()
    }

    /// The component at `i`.
    pub fn part(&self, i: usize) -> (s: &String)
        requires
            i < self@.parts.len(),
        ensures
            s@ == self@.parts[i as int],
    {
        &self.parts[i]
    }

    /// The empty relative path.
    pub fn empty() -> (p: MPath)
        ensures
            p@ == (PathView { absolute: false, parts: Seq::empty() }),
    {
        let p = MPath { absolute: false, parts: Vec::new() };
        assert(p@.parts =~= Seq::<Seq<char>>::empty());
        p
    }

    /// A copy of the path.
    pub fn duplicate(&self) -> (r: MPath)
        ensures
            r@ == self@,
    {
        proof {
            use_type_invariant(self);
        }
        let mut parts: Vec<String> = Vec::new();
        let mut i: usize = 0;
        while i < self.parts.len()
            invariant
                i <= self.parts@.len(),
                parts@ == self.parts@.take(i as int),
            decreases self.parts@.len() - i,
        {
            parts.push(self.parts[i].clone());
            i = i + 1;
            assert(parts@ =~= self.parts@.take(i as int));
        }
        assert(self.parts@.take(i as int) =~= self.parts@);
        MPath { absolute: self.absolute, parts }
    }

    /// The path a text denotes (`Path::new(text)` seen through its components).
    pub fn parse(text: &str) -> (p: MPath)
        ensures
            p@ == parse_text(text@),
    {
        let v = chars_of(text);
        let n = v.len();
        let mut parts: Vec<String> = Vec::new();
        let mut start: usize = 0;
        let mut i: usize = 0;
        while i < n
            invariant
                n == v@.len(),
                v@ == text@,
                start <= i <= n,
                start > 0 ==> v@[start - 1] == '/',
                forall|k: int| start <= k < i ==> v@[k] != '/',
                parts@.map_values(|p: String| p@) == (if start == 0 {
                    Seq::<Seq<char>>::empty()
                } else {
                    text_parts(v@.subrange(0, start - 1))
                }),
            decreases n - i,
        {
            if v[i] == '/' {
                let ghost before = v@.subrange(0, i as int);
                proof {
                    lemma_last_index_of_at(before, '/', start - 1);
                    if start > 0 {
                        assert(before.subrange(0, start - 1) =~= v@.subrange(0, start - 1));
                    }
                    assert(before.subrange(start as int, i as int) =~= v@.subrange(
                        start as int,
                        i as int,
                    ));
                }
                Self::push_segment(&mut parts, text, &v, start, i);
                start = i + 1;
            }
            i = i + 1;
        }
        proof {
            lemma_last_index_of_at(v@, '/', start - 1);
        }
        let ghost prev = parts@.map_values(|p: String| p@);
        Self::push_segment(&mut parts, text, &v, start, n);
        let absolute = n > 0 && v[0] == '/';
        proof {
            lemma_text_parts_ok(v@);
            let seg = v@.subrange(start as int, n as int);
            assert(last_index_of(v@, '/') == start - 1);
            assert(text_parts(v@) == (if keep_segment(seg) {
                prev.push(seg)
            } else {
                prev
            }));
            assert(parts@.map_values(|p: String| p@) == text_parts(v@));
        }
        MPath { absolute, parts }
    }

    /// Appends the segment `start..end` of `text` when it is a component.
    fn push_segment(parts: &mut Vec<String>, text: &str, v: &Vec<char>, start: usize, end: usize)
        requires
            v@ == text@,
            start <= end <= v@.len(),
        ensures
            final(parts)@.map_values(|p: String| p@) == (if keep_segment(
                v@.subrange(start as int, end as int),
            ) {
                old(parts)@.map_values(|p: String| p@).push(v@.subrange(start as int, end as int))
            } else {
                old(parts)@.map_values(|p: String| p@)
            }),
    {
        let ghost seg = v@.subrange(start as int, end as int);
        let single = end - start == 1 && v[start] == '.';
        proof {
            if end - start == 1 {
                assert(seg =~= seq![v@[start as int]]);
                if v@[start as int] != '.' {
                    assert(seg[0] != seq!['.'][0]);
                }
            }
        }
        if end > start && !single {
            let piece = text.substring_char(start, end);
            let ghost old_parts = parts@;
            parts.push(owned(piece));
            assert(parts@.map_values(|p: String| p@) =~= old_parts.map_values(|p: String| p@).push(
                seg,
            ));
        }
    }

    /// The final component, unless there is none or it is `..`.
    pub fn file_name(&self) -> (r: Option<String>)
        ensures
            r matches Some(s) ==> file_name(self@) == Some(s@),
            r is None ==> file_name(self@) is None,
    {
        let n = self.parts.len();
        if n == 0 {
            return None;
        }
        let last = &self.parts[n - 1];
        let l = chars_of(last.as_str());
        let dd = chars_of("..");
        proof {
            reveal_strlit("..");
            assert(dd@ =~= dot_dot());
        }
        if chars_eq(&l, &dd) {
            None
        } else {
            Some(last.clone())
        }
    }

    /// The path without its final component.
    pub fn parent(&self) -> (r: Option<MPath>)
        ensures
            r matches Some(q) ==> parent(self@) == Some(q@),
            r is None ==> parent(self@) is None,
    {
        proof {
            use_type_invariant(self);
        }
        let n = self.parts.len();
        if n == 0 {
            return None;
        }
        let mut parts: Vec<String> = Vec::new();
        let mut i: usize = 0;
        while i < n - 1
            invariant
                n == self.parts@.len(),
                n > 0,
                i <= n - 1,
                parts@ == self.parts@.take(i as int),
            decreases n - 1 - i,
        {
            parts.push(self.parts[i].clone());
            i = i + 1;
            assert(parts@ =~= self.parts@.take(i as int));
        }
        assert(parts@ =~= self.parts@.drop_last());
        assert(parts@.map_values(|p: String| p@) =~= self@.parts.drop_last());
        let q = MPath { absolute: self.absolute, parts };
        assert(q@.parts =~= self@.parts.drop_last());
        Some(q)
    }

    /// `self` joined with `other` (`Path::join`).
    pub fn join(&self, other: &MPath) -> (r: MPath)
        ensures
            r@ == join(self@, other@),
    {
        proof {
            use_type_invariant(self);
            use_type_invariant(other);
        }
        if other.absolute {
            return other.duplicate();
        }
        let mut r = self.duplicate();
        let mut i: usize = 0;
        while i < other.parts.len()
            invariant
                i <= other.parts@.len(),
                path_ok(self@),
                path_ok(other@),
                !other@.absolute,
                r@ == (PathView {
                    absolute: self@.absolute,
                    parts: self@.parts + other@.parts.take(i as int),
                }),
            decreases other.parts@.len() - i,
        {
            proof {
                use_type_invariant(&r);
            }
            assert(valid_part(other@.parts[i as int]));
            r.push_part(other.parts[i].clone());
            i = i + 1;
            assert(r@.parts =~= self@.parts + other@.parts.take(i as int));
        }
        assert(other@.parts.take(i as int) =~= other@.parts);
        r
    }

    /// Appends a component that satisfies the model's rules.
    fn push_part(&mut self, part: String)
        requires
            valid_part(part@),
        ensures
            final(self)@ == (PathView {
                absolute: old(self)@.absolute,
                parts: old(self)@.parts.push(part@),
            }),
    {
        proof {
            use_type_invariant(&*self);
        }
        let ghost old_view = self@;
        let mut parts = Vec::new();
        std::mem::swap(&mut parts, &mut self.parts);
        parts.push(part);
        assert(parts@.map_values(|p: String| p@) =~= old_view.parts.push(part@));
        *self = MPath { absolute: self.absolute, parts };
    }

    /// `self` relative to `base` (`Path::strip_prefix`).
    pub fn strip_prefix(&self, base: &MPath) -> (r: Option<MPath>)
        ensures
            r matches Some(q) ==> strip_prefix(self@, base@) == Some(q@),
            r is None ==> strip_prefix(self@, base@) is None,
    {
        proof {
            use_type_invariant(self);
            use_type_invariant(base);
        }
        let m = base.parts.len();
        if !base.absolute && m == 0 {
            return Some(self.duplicate());
        }
        if self.absolute != base.absolute || m > self.parts.len() {
            return None;
        }
        let mut i: usize = 0;
        while i < m
            invariant
                m == base@.parts.len(),
                m <= self@.parts.len(),
                i <= m,
                forall|k: int| 0 <= k < i ==> self@.parts[k] == base@.parts[k],
            decreases m - i,
        {
            let a = chars_of(self.parts[i].as_str());
            let b = chars_of(base.parts[i].as_str());
            if !chars_eq(&a, &b) {
                assert(self@.parts.take(m as int)[i as int] != base@.parts[i as int]);
                return None;
            }
            i = i + 1;
        }
        assert(self@.parts.take(m as int) =~= base@.parts);
        let mut rest: Vec<String> = Vec::new();
        let n = self.parts.len();
        let mut j: usize = m;
        while j < n
            invariant
                n == self@.parts.len(),
                m <= j <= n,
                path_ok(self@),
                rest@ == self.parts@.subrange(m as int, j as int),
            decreases n - j,
        {
            rest.push(self.parts[j].clone());
            j = j + 1;
            assert(rest@ =~= self.parts@.subrange(m as int, j as int));
        }
        assert(rest@.map_values(|p: String| p@) =~= self@.parts.subrange(m as int, n as int));
        let q = MPath { absolute: false, parts: rest };
        assert(q@.parts =~= self@.parts.skip(m as int));
        Some(q)
    }

    /// Whether two paths have the same root flag and components.
    pub fn same_as(&self, other: &MPath) -> (b: bool)
        ensures
            b == (self@ == other@),
    {
        if self.absolute != other.absolute || self.parts.len() != other.parts.len() {
            proof {
                if self.absolute == other.absolute {
                    assert(self@.parts.len() != other@.parts.len());
                }
            }
            return false;
        }
        let n = self.parts.len();
        let mut i: usize = 0;
        while i < n
            invariant
                n == self@.parts.len(),
                n == other@.parts.len(),
                i <= n,
                forall|k: int| 0 <= k < i ==> self@.parts[k] == other@.parts[k],
            decreases n - i,
        {
            let a = chars_of(self.parts[i].as_str());
            let b = chars_of(other.parts[i].as_str());
            if !chars_eq(&a, &b) {
                assert(self@.parts[i as int] != other@.parts[i as int]);
                return false;
            }
            i = i + 1;
        }
        assert(self@.parts =~= other@.parts);
        true
    }

    /// The text of the path: components joined by `/`, after a leading `/`
    /// for an absolute path.
    pub fn render(&self) -> (s: String)
        ensures
            s@ == render(self@),
    {
        let mut s = String::new();
        let slash = "/";
        proof {
            reveal_strlit("/");
        }
        if self.absolute {
            s.append(slash);
        }
        let n = self.parts.len();
        let ghost head = if self@.absolute {
            seq!['/']
        } else {
            Seq::<char>::empty()
        };
        let mut i: usize = 0;
        while i < n
            invariant
                n == self@.parts.len(),
                i <= n,
                slash@ == seq!['/'],
                head == (if self@.absolute {
                    seq!['/']
                } else {
                    Seq::<char>::empty()
                }),
                s@ == head + joined(self@.parts.take(i as int)),
            decreases n - i,
        {
            let ghost t = self@.parts.take(i as int + 1);
            assert(t.drop_last() =~= self@.parts.take(i as int));
            if i > 0 {
                s.append(slash);
            }
            s.append(self.parts[i].as_str());
            i = i + 1;
            assert(s@ =~= head + joined(self@.parts.take(i as int)));
        }
        assert(self@.parts.take(n as int) =~= self@.parts);
        assert(s@ =~= render(self@));
        s
    }

    /// The stem of the final component.
    pub fn file_stem(&self) -> (r: Option<String>)
        ensures
            r matches Some(s) ==> file_stem(self@) == Some(s@),
            r is None ==> file_stem(self@) is None,
    {
        match self.file_name() {
            None => None,
            Some(name) => Some(stem_of(name.as_str())),
        }
    }

    /// The extension of the final component.
    pub fn extension(&self) -> (r: Option<String>)
        ensures
            r matches Some(s) ==> extension(self@) == Some(s@),
            r is None ==> extension(self@) is None,
    {
        match self.file_name() {
            None => None,
            Some(name) => extension_of(name.as_str()),
        }
    }

    /// `self` with the extension of its final component set to `ext`
    /// (`Path::with_extension`).
    pub fn with_extension(&self, ext: &str) -> (r: MPath)
        requires
            !ext@.contains('/'),
        ensures
            r@ == with_extension(self@, ext@),
    {
        proof {
            use_type_invariant(self);
        }
        match self.file_stem() {
            None => self.duplicate(),
            Some(stem) => {
                let mut last = stem;
                if ext.unicode_len() > 0 {
                    let dot = ".";
                    proof {
                        reveal_strlit(".");
                    }
                    last.append(dot);
                    last.append(ext);
                }
                let parent = match self.parent() {
                    Some(p) => p,
                    None => {
                        assert(false);
                        MPath::empty()
                    },
                };
                let lv = chars_of(last.as_str());
                let single_dot = chars_of(".");
                proof {
                    reveal_strlit(".");
                    assert(single_dot@ =~= seq!['.']);
                    assert(last@ =~= renamed_part(name_stem(file_name(self@)->0), ext@));
                    assert(valid_part(self@.parts[self@.parts.len() - 1]));
                }
                if chars_eq(&lv, &single_dot) {
                    parent
                } else {
                    proof {
                        lemma_renamed_part_ok(file_name(self@)->0, ext@);
                    }
                    let mut r = parent;
                    r.push_part(last);
                    r
                }
            },
        }
    }
}

/// A stem or extension of a valid component keeps the component rules,
/// unless it is `.`.
pub proof fn lemma_renamed_part_ok(name: Seq<char>, ext: Seq<char>)
    requires
        valid_part(name),
        !ext.contains('/'),
        renamed_part(name_stem(name), ext) != seq!['.'],
    ensures
        valid_part(renamed_part(name_stem(name), ext)),
{
    lemma_last_index_of(name, '.');
    let stem = name_stem(name);
    let r = renamed_part(stem, ext);
    assert(!stem.contains('/')) by {
        if stem.contains('/') {
            let k = choose|k: int| 0 <= k < stem.len() && stem[k] == '/';
            assert(name[k] == '/');
        }
    }
    assert(stem.len() > 0);
    if ext.len() > 0 {
        assert(!r.contains('/')) by {
            if r.contains('/') {
                let k = choose|k: int| 0 <= k < r.len() && r[k] == '/';
                if k < stem.len() {
                    assert(stem[k] == '/');
                } else if k > stem.len() {
                    assert(ext[k - stem.len() - 1] == '/');
                }
            }
        }
    }
}

/// The extension of a file name (`Path::extension` on a single name).
pub fn extension_of(name: &str) -> (r: Option<String>)
    ensures
        r matches Some(s) ==> name_extension(name@) == Some(s@),
        r is None ==> name_extension(name@) is None,
{
    let v = chars_of(name);
    let dd = chars_of("..");
    proof {
        reveal_strlit("..");
        assert(dd@ =~= dot_dot());
    }
    let is_dd = chars_eq(&v, &dd);
    proof {
        lemma_last_index_of(v@, '.');
    }
    match last_dot(&v) {
        Some(i) => {
            if is_dd || i == 0 {
                None
            } else {
                let end = v.len();
                assert(i < end);
                Some(owned(name.substring_char(i + 1, end)))
            }
        },
        None => None,
    }
}

/// The stem of a file name (`Path::file_stem` on a single name).
pub fn stem_of(name: &str) -> (r: String)
    ensures
        r@ == name_stem(name@),
{
    let v = chars_of(name);
    let dd = chars_of("..");
    proof {
        reveal_strlit("..");
        assert(dd@ =~= dot_dot());
    }
    let is_dd = chars_eq(&v, &dd);
    proof {
        lemma_last_index_of(v@, '.');
    }
    match last_dot(&v) {
        Some(i) => {
            if is_dd || i == 0 {
                owned(name)
            } else {
                owned(name.substring_char(0, i))
            }
        },
        None => owned(name),
    }
}

/// Index of the last `.` in `v`.
fn last_dot(v: &Vec<char>) -> (r: Option<usize>)
    ensures
        r matches Some(k) ==> last_index_of(v@, '.') == k,
        r is None ==> last_index_of(v@, '.') == -1,
{
    proof {
        lemma_last_index_of(v@, '.');
    }
    let mut i: usize = v.len();
    while i > 0
        invariant
            i <= v@.len(),
            forall|k: int| i <= k < v@.len() ==> v@[k] != '.',
        decreases i,
    {
        if v[i - 1] == '.' {
            proof {
                lemma_last_index_of_at(v@, '.', i - 1);
            }
            return Some(i - 1);
        }
        i = i - 1;
    }
    proof {
        lemma_last_index_of_at(v@, '.', -1);
    }
    None
}

/// Path utilities for source and destination management.
pub struct PathUtil;

impl PathUtil {
    /// Resolves the destination against the current directory: an absolute
    /// destination is kept, a relative one is taken relative to `cwd`.
    pub fn resolve_destination(destination: &MPath, cwd: &MPath) -> (r: MPath)
        ensures
            r@ == join(cwd@, destination@),
            destination@.absolute ==> r@ == destination@,
    {
        if destination.is_absolute() {
            destination.duplicate()
        } else {
            cwd.join(destination)
        }
    }

    /// Checks if a file should be skipped based on its existing size and the
    /// overwrite flag: an existing non-empty file is skipped unless
    /// overwriting.
    pub fn should_skip(existing_len: Option<u64>, overwrite: bool) -> (b: bool)
        ensures
            b == (!overwrite && (existing_len matches Some(n) && n > 0)),
    {
        if overwrite {
            return false;
        }
        match existing_len {
            Some(n) => n > 0,
            None => false,
        }
    }
}

} // verus!
