//! Paths as text: absolute paths, and paths seen from the root of the store.

use vstd::prelude::*;
use crate::errors::Error;
use crate::text::{chars_of, same_chars, same_text, string_of};

verus! {

/// `base` and `path` joined: `path` alone where it is absolute or `base`
/// is empty, else `base`, one separator, and `path`.
pub open spec fn joined(base: Seq<char>, path: Seq<char>) -> Seq<char> {
    if path.len() > 0 && path[0] == '/' {
        path
    } else if base.len() == 0 {
        path
    } else if base.last() == '/' {
        base + path
    } else {
        base.push('/') + path
    }
}

pub fn join(base: &str, path: &str) -> (r: String)
    ensures
        r@ == joined(base@, path@),
{
    let b = chars_of(base);
    let p = chars_of(path);
    let r = join_chars(&b, &p);
    string_of(&r, 0, r.len())
}

/// `joined` on vectors of characters.
pub fn join_chars(b: &Vec<char>, p: &Vec<char>) -> (r: Vec<char>)
    ensures
        r@ == joined(b@, p@),
{
    if p.len() > 0 && p[0] == '/' {
        return p.clone();
    }
    if b.len() == 0 {
        return p.clone();
    }
    let mut out = b.clone();
    if b[b.len() - 1] != '/' {
        out.push('/');
    }
    let mut i: usize = 0;
    let ghost start = out@;
    while i < p.len()
        invariant
            i <= p@.len(),
            out@ == start + p@.subrange(0, i as int),
        decreases p@.len() - i,
    {
        out.push(p[i]);
        i += 1;
        assert(out@ =~= start + p@.subrange(0, i as int));
    }
    assert(p@.subrange(0, p@.len() as int) =~= p@);
    out
}


/// Whether a path starts at the root.
pub open spec fn is_absolute(p: Seq<char>) -> bool {
    p.len() > 0 && p[0] == '/'
}

/// The path that lexical cleaning makes of a path: no doubled
/// separators, no `.`, and `..` resolved against what stands before it.
pub uninterp spec fn cleaned(path: Seq<char>) -> Seq<char>;

/// Calls `path_clean::clean`, which rewrites a path without looking at
/// the file system. The contract names the result `cleaned`, and says
/// that a path from the root stays one.
#[verifier::external_body]
fn clean(path: &str) -> (r: String)
    ensures
        r@ == cleaned(path@),
        is_absolute(path@) ==> is_absolute(r@),
{
    path_clean::clean(path)
}

/// The piece that ends, as a list of at most one component: nothing
/// where it is empty or `.`.
pub open spec fn kept(cur: Seq<char>) -> Seq<Seq<char>> {
    if cur.len() == 0 || cur == seq!['.'] {
        seq![]
    } else {
        seq![cur]
    }
}

/// The components of `s` from position `i` on, where `cur` holds the
/// characters of the piece that `i` stands in.
pub open spec fn components_from(s: Seq<char>, i: int, cur: Seq<char>) -> Seq<Seq<char>>
    decreases s.len() - i,
{
    if i < 0 || i >= s.len() {
        kept(cur)
    } else if s[i] == '/' {
        kept(cur) + components_from(s, i + 1, seq![])
    } else {
        components_from(s, i + 1, cur.push(s[i]))
    }
}

/// The components of a path: its pieces between separators, but for
/// empty ones and `.`.
pub open spec fn components(s: Seq<char>) -> Seq<Seq<char>> {
    components_from(s, 0, seq![])
}

/// The texts of a list of vectors of characters.
pub open spec fn texts(v: Seq<Vec<char>>) -> Seq<Seq<char>> {
    v.map_values(|c: Vec<char>| c@)
}

fn is_dot(cur: &Vec<char>) -> (r: bool)
    ensures
        r == (cur@ == seq!['.']),
{
    let r = cur.len() == 1 && cur[0] == '.';
    proof {
        if r {
            assert(cur@ =~= seq!['.']);
        } else if cur.len() == 1 {
            assert(seq!['.'][0] == '.');
        } else {
            assert(seq!['.'].len() == 1);
        }
    }
    r
}

/// The components of a path.
pub fn split(s: &Vec<char>) -> (r: Vec<Vec<char>>)
    ensures
        texts(r@) == components(s@),
{
    let mut out: Vec<Vec<char>> = Vec::new();
    let mut cur: Vec<char> = Vec::new();
    let mut i: usize = 0;
    assert(texts(out@) + components_from(s@, 0, cur@) =~= components(s@));
    while i < s.len()
        invariant
            i <= s.len(),
            components(s@) == texts(out@) + components_from(s@, i as int, cur@),
        decreases s.len() - i,
    {
        if s[i] == '/' {
            let ghost before = texts(out@);
            let ghost piece = cur@;
            let ghost rest = components_from(s@, i + 1, seq![]);
            assert(components_from(s@, i as int, piece) == kept(piece) + rest);
            if cur.len() > 0 && !is_dot(&cur) {
                out.push(cur);
            }
            assert(texts(out@) =~= before + kept(piece));
            cur = Vec::new();
            assert(texts(out@) + components_from(s@, i + 1, cur@) =~= before + (kept(piece)
                + rest));
        } else {
            cur.push(s[i]);
        }
        i += 1;
    }
    let ghost before = texts(out@);
    let ghost piece = cur@;
    if cur.len() > 0 && !is_dot(&cur) {
        out.push(cur);
    }
    assert(texts(out@) =~= before + kept(piece));
    out
}

/// Whether the components of `path` start with those of `base`.
pub open spec fn within(path: Seq<char>, base: Seq<char>) -> bool {
    components(base).is_prefix_of(components(path))
}

/// Whether `a` starts with `b`, piece by piece.
fn starts_with(a: &Vec<Vec<char>>, b: &Vec<Vec<char>>) -> (r: bool)
    ensures
        r == texts(b@).is_prefix_of(texts(a@)),
{
    if b.len() > a.len() {
        return false;
    }
    let mut i: usize = 0;
    while i < b.len()
        invariant
            i <= b.len() <= a.len(),
            forall|j: int| 0 <= j < i ==> texts(a@)[j] == texts(b@)[j],
        decreases b.len() - i,
    {
        if !same_chars(&a[i], &b[i]) {
            assert(texts(a@)[i as int] != texts(b@)[i as int]);
            return false;
        }
        i += 1;
    }
    assert(texts(b@) =~= texts(a@).subrange(0, b.len() as int));
    true
}

/// The pieces from `from` on with a separator between each two.
pub open spec fn glued(parts: Seq<Seq<char>>, from: int) -> Seq<char>
    decreases parts.len() - from,
{
    if from < 0 || from >= parts.len() {
        seq![]
    } else if from == parts.len() - 1 {
        parts[from]
    } else {
        parts[from].push('/') + glued(parts, from + 1)
    }
}

/// The pieces from `from` on with a separator between each two.
fn glue(parts: &Vec<Vec<char>>, from: usize) -> (r: Vec<char>)
    ensures
        r@ == glued(texts(parts@), from as int),
    decreases parts.len() - from,
{
    if from >= parts.len() {
        return Vec::new();
    }
    let mut out = parts[from].clone();
    assert(out@ == texts(parts@)[from as int]);
    if from == parts.len() - 1 {
        return out;
    }
    out.push('/');
    let rest = glue(parts, from + 1);
    let ghost head = out@;
    let mut i: usize = 0;
    while i < rest.len()
        invariant
            i <= rest.len(),
            out@ == head + rest@.subrange(0, i as int),
        decreases rest.len() - i,
    {
        out.push(rest[i]);
        i += 1;
        assert(out@ =~= head + rest@.subrange(0, i as int));
    }
    assert(rest@.subrange(0, rest.len() as int) =~= rest@);
    out
}

/// An absolute path.
#[derive(Debug, Clone, PartialEq, Eq, Hash)]
pub struct AbsPath(pub String);

impl AbsPath {
    /// The path as text.
    pub open spec fn text(&self) -> Seq<char> {
        self.0@
    }

    pub fn from_unchecked(abs: String) -> (r: Self)
        requires
            is_absolute(abs@),
        ensures
            r.text() == abs@,
    {
        AbsPath(abs)
    }

    /// The path itself where it is absolute, else what cleaning makes of
    /// the base joined with it.
    pub fn from(path: &str, base: &AbsPath) -> (r: Self)
        ensures
            r.text() == if is_absolute(path@) {
                path@
            } else {
                cleaned(joined(base.text(), path@))
            },
    {
        let p = chars_of(path);
        if p.len() > 0 && p[0] == '/' {
            AbsPath(path.to_owned())
        } else {
            let j = join(base.0.as_str(), path);
            AbsPath(clean(j.as_str()))
        }
    }

    /// The path from `base` to this one, where this path lies in `base`.
    pub fn rel_to(&self, base: &CanonicalPath) -> (r: Option<String>)
        ensures
            match r {
                Some(rel) => within(self.text(), base.text()) && rel@ == glued(
                    components(self.text()),
                    components(base.text()).len() as int,
                ),
                None => !within(self.text(), base.text()),
            },
    {
        let mine = split(&chars_of(self.0.as_str()));
        let theirs = split(&chars_of(base.0.0.as_str()));
        if starts_with(&mine, &theirs) {
            let rel = glue(&mine, theirs.len());
            assert(texts(theirs@).len() == theirs.len());
            Some(string_of(&rel, 0, rel.len()))
        } else {
            None
        }
    }

    pub fn as_str(&self) -> (r: &str)
        ensures
            r@ == self.text(),
    {
        self.0.as_str()
    }
}

/// The path of something that was found in the file system, with every
/// link on the way followed.
#[derive(Debug, Clone, PartialEq, Eq, Hash)]
pub struct CanonicalPath(pub AbsPath);

impl CanonicalPath {
    /// The path as text.
    pub open spec fn text(&self) -> Seq<char> {
        self.0.0@
    }

    /// Makes a canonical path of what the file system gave for `path`:
    /// its canonical form, or nothing where it was not found.
    pub fn new(path: &str, canonical: Option<String>) -> (r: Result<Self, Error>)
        ensures
            match canonical {
                Some(c) => if is_absolute(c@) {
                    r is Ok && r->Ok_0.text() == c@
                } else {
                    r matches Err(Error::FileNotFound(p)) && p@ == path@
                },
                None => r matches Err(Error::FileNotFound(p)) && p@ == path@,
            },
    {
        match canonical {
            Some(c) => {
                let v = chars_of(c.as_str());
                if v.len() > 0 && v[0] == '/' {
                    Ok(CanonicalPath(AbsPath(c)))
                } else {
                    Err(Error::FileNotFound(path.to_owned()))
                }
            },
            None => Err(Error::FileNotFound(path.to_owned())),
        }
    }
}

/// What the file system says of one path.
#[derive(Debug, Clone, PartialEq, Eq)]
pub struct PathFacts {
    /// Whether the path itself is a symbolic link.
    pub is_symlink: bool,
    /// The canonical form of the path, where the path exists.
    pub canonical: Option<String>,
}

/// The path to use for `path`: its canonical form where links are to be
/// followed and it is one, else the path itself.
pub fn resolve_path(path: &str, follow_symlinks: bool, facts: &PathFacts) -> (r: Result<
    String,
    Error,
>)
    ensures
        if follow_symlinks && facts.is_symlink {
            match facts.canonical {
                Some(c) => r is Ok && r->Ok_0@ == c@,
                None => r matches Err(Error::FileNotFound(p)) && p@ == path@,
            }
        } else {
            r is Ok && r->Ok_0@ == path@
        },
{
    if follow_symlinks && facts.is_symlink {
        match &facts.canonical {
            Some(c) => Ok(c.clone()),
            None => Err(Error::FileNotFound(path.to_owned())),
        }
    } else {
        Ok(path.to_owned())
    }
}

/// Unicode lower case of a text.
pub uninterp spec fn lowercase(s: Seq<char>) -> Seq<char>;

/// Calls `str::to_lowercase`, which gives the text in lower case as
/// Unicode defines it; the contract names the result `lowercase`.
#[verifier::external_body]
fn to_lower(s: &str) -> (r: String)
    ensures
        r@ == lowercase(s@),
{
    s.to_lowercase()
}

/// The text by which a string is compared: in lower case where case is
/// ignored, else as it is.
pub open spec fn folded(s: Seq<char>, ignore_case: bool) -> Seq<char> {
    if ignore_case {
        lowercase(s)
    } else {
        s
    }
}

pub fn lowercase_or_owned(string: &str, ignore_case: bool) -> (r: String)
    ensures
        r@ == folded(string@, ignore_case),
{
    if ignore_case {
        to_lower(string)
    } else {
        string.to_owned()
    }
}

/// Things that have a text by which they are found.
pub trait Named {
    spec fn label(&self) -> Seq<char>;

    fn text(&self) -> (r: &str)
        ensures
            r@ == self.label(),
    ;
}

impl Named for String {
    open spec fn label(&self) -> Seq<char> {
        self@
    }

    fn text(&self) -> (r: &str) {
        self.as_str()
    }
}

impl Named for crate::entities::Tag {
    open spec fn label(&self) -> Seq<char> {
        self.name@
    }

    fn text(&self) -> (r: &str) {
        self.name.as_str()
    }
}

impl Named for crate::entities::Value {
    open spec fn label(&self) -> Seq<char> {
        self.name@
    }

    fn text(&self) -> (r: &str) {
        self.name.as_str()
    }
}

/// Whether one of the items has the text `to_find`, case ignored or not.
pub fn contains_for_case<T: Named>(items: &Vec<T>, to_find: &str, ignore_case: bool) -> (r: bool)
    ensures
        r == exists|i: int|
            0 <= i < items@.len() && folded((#[trigger] items@[i]).label(), ignore_case) == folded(
                to_find@,
                ignore_case,
            ),
{
    let wanted = lowercase_or_owned(to_find, ignore_case);
    let mut i: usize = 0;
    while i < items.len()
        invariant
            i <= items.len(),
            wanted@ == folded(to_find@, ignore_case),
            forall|j: int|
                0 <= j < i ==> folded((#[trigger] items@[j]).label(), ignore_case) != folded(
                    to_find@,
                    ignore_case,
                ),
        decreases items.len() - i,
    {
        let have = lowercase_or_owned(items[i].text(), ignore_case);
        if same_text(have.as_str(), wanted.as_str()) {
            return true;
        }
        i += 1;
    }
    false
}


/// Collections in which a text can be looked for, with or without
/// regard to case.
pub trait CasedContains {
    /// The texts of the items.
    spec fn labels(&self) -> Seq<Seq<char>>;

    /// Whether one of the items has the text `to_find`.
    fn contains_for_case(&self, to_find: &str, ignore_case: bool) -> (r: bool)
        ensures
            r == exists|i: int|
                0 <= i < self.labels().len() && folded(#[trigger] self.labels()[i], ignore_case)
                    == folded(to_find@, ignore_case),
    ;
}

impl<T: Named> CasedContains for Vec<T> {
    open spec fn labels(&self) -> Seq<Seq<char>> {
        self@.map_values(|t: T| t.label())
    }

    fn contains_for_case(&self, to_find: &str, ignore_case: bool) -> (r: bool) {
        let r = contains_for_case(self, to_find, ignore_case);
        proof {
            if r {
                let i = choose|i: int|
                    0 <= i < self@.len() && folded((#[trigger] self@[i]).label(), ignore_case)
                        == folded(to_find@, ignore_case);
                assert(self.labels()[i] == self@[i].label());
            } else {
                assert forall|i: int| 0 <= i < self.labels().len() implies folded(
                    #[trigger] self.labels()[i],
                    ignore_case,
                ) != folded(to_find@, ignore_case) by {
                    assert(self.labels()[i] == self@[i].label());
                }
            }
        }
        r
    }
}

/// What is known of one path of the file system.
#[derive(Debug, Clone, PartialEq, Eq)]
pub struct FsEntry {
    pub path: String,
    pub facts: PathFacts,
}

/// What a list of entries says of a path: the facts of the first entry
/// for it; where there is none, that it does not exist.
pub open spec fn looked_up(fs: Seq<FsEntry>, path: Seq<char>) -> (bool, Option<Seq<char>>)
    decreases fs.len(),
{
    if fs.len() == 0 {
        (false, None)
    } else if fs[0].path@ == path {
        (
            fs[0].facts.is_symlink,
            match fs[0].facts.canonical {
                Some(c) => Some(c@),
                None => None,
            },
        )
    } else {
        looked_up(fs.drop_first(), path)
    }
}

/// The facts as mathematics.
pub open spec fn facts_view(f: PathFacts) -> (bool, Option<Seq<char>>) {
    (
        f.is_symlink,
        match f.canonical {
            Some(c) => Some(c@),
            None => None,
        },
    )
}

fn look_up(fs: &Vec<FsEntry>, path: &str) -> (r: PathFacts)
    ensures
        facts_view(r) == looked_up(fs@, path@),
{
    let mut i: usize = 0;
    assert(fs@.skip(0) =~= fs@);
    while i < fs.len()
        invariant
            i <= fs.len(),
            looked_up(fs@, path@) == looked_up(fs@.skip(i as int), path@),
        decreases fs.len() - i,
    {
        assert(fs@.skip(i as int).drop_first() =~= fs@.skip(i + 1));
        if same_text(fs[i].path.as_str(), path) {
            return PathFacts {
                is_symlink: fs[i].facts.is_symlink,
                canonical: match &fs[i].facts.canonical {
                    Some(c) => Some(c.clone()),
                    None => None,
                },
            };
        }
        i += 1;
    }
    PathFacts { is_symlink: false, canonical: None }
}

/// A walk along the components of a path, on the way to a scoped path.
/// At each component the walk asks for the facts of one path.
pub struct Walk {
    pub base: CanonicalPath,
    pub growing: String,
    pub parts: Vec<Vec<char>>,
    pub next: usize,
    pub stopped: bool,
}

/// A walk as mathematics.
pub struct WalkView {
    pub base: Seq<char>,
    pub growing: Seq<char>,
    pub parts: Seq<Seq<char>>,
    pub next: int,
    pub stopped: bool,
}

impl View for Walk {
    type V = WalkView;

    open spec fn view(&self) -> WalkView {
        WalkView {
            base: self.base.text(),
            growing: self.growing@,
            parts: texts(self.parts@),
            next: self.next as int,
            stopped: self.stopped,
        }
    }
}

impl WalkView {
    /// Where a walk starts: at the base for a relative path, at the root
    /// for an absolute one.
    pub open spec fn start(base: Seq<char>, path: Seq<char>) -> WalkView {
        WalkView {
            base,
            growing: if is_absolute(path) {
                seq!['/']
            } else {
                base
            },
            parts: components(path),
            next: 0,
            stopped: false,
        }
    }

    /// Whether the walk has a component left to look at.
    pub open spec fn open(self) -> bool {
        !self.stopped && 0 <= self.next < self.parts.len()
    }

    /// The path whose facts the walk asks for.
    pub open spec fn asked(self) -> Seq<char> {
        joined(self.growing, self.parts[self.next])
    }

    /// The walk after the facts of the path asked for are known. A link
    /// inside the base ends the walk and stays as it is; anything else is
    /// replaced by its canonical form where it exists, else cleaned.
    pub open spec fn stepped(self, facts: (bool, Option<Seq<char>>)) -> WalkView {
        if within(self.asked(), self.base) && facts.0 {
            WalkView { growing: self.asked(), next: self.next + 1, stopped: true, ..self }
        } else {
            WalkView {
                growing: match facts.1 {
                    Some(c) => c,
                    None => cleaned(self.asked()),
                },
                next: self.next + 1,
                ..self
            }
        }
    }

    /// The walk at its end, with the facts taken from a list of entries.
    pub open spec fn walked(self, fs: Seq<FsEntry>) -> WalkView
        decreases self.parts.len() - self.next,
    {
        if self.open() {
            self.stepped(looked_up(fs, self.asked())).walked(fs)
        } else {
            self
        }
    }

    /// The absolute path that the walk has reached: what it grew, and
    /// behind it the components that it did not look at.
    pub open spec fn reached(self) -> Seq<char> {
        let rest = glued(self.parts, self.next);
        let whole = if rest.len() == 0 {
            self.growing
        } else {
            joined(self.growing, rest)
        };
        if is_absolute(whole) {
            whole
        } else {
            cleaned(joined(self.base, whole))
        }
    }

    /// The stored form of the path reached: relative to the base where it
    /// lies in it, `.` for the base itself, else the path reached.
    pub open spec fn inner(self) -> Seq<char> {
        if within(self.reached(), self.base) {
            let rel = glued(components(self.reached()), components(self.base).len() as int);
            if rel.len() == 0 {
                seq!['.']
            } else {
                rel
            }
        } else {
            self.reached()
        }
    }
}

impl Walk {
    /// Starts a walk along `path`, seen from `base`.
    pub fn start(base: &CanonicalPath, path: &str) -> (w: Walk)
        ensures
            w@ == WalkView::start(base.text(), path@),
    {
        let p = chars_of(path);
        let growing = if p.len() > 0 && p[0] == '/' {
            let mut root: Vec<char> = Vec::new();
            root.push('/');
            assert(root@ =~= seq!['/']);
            string_of(&root, 0, 1)
        } else {
            base.0.0.clone()
        };
        assert(growing@ =~= WalkView::start(base.text(), path@).growing);
        Walk {
            base: CanonicalPath(AbsPath(base.0.0.clone())),
            growing,
            parts: split(&p),
            next: 0,
            stopped: false,
        }
    }

    /// The path whose facts the walk needs next; none at its end.
    pub fn probe(&self) -> (r: Option<String>)
        ensures
            match r {
                Some(p) => self@.open() && p@ == self@.asked(),
                None => !self@.open(),
            },
    {
        if self.stopped || self.next >= self.parts.len() {
            None
        } else {
            let part = &self.parts[self.next];
            assert(texts(self.parts@)[self.next as int] == part@);
            let g = chars_of(self.growing.as_str());
            let j = join_chars(&g, part);
            Some(string_of(&j, 0, j.len()))
        }
    }

    /// Takes the facts of the path asked for and moves on.
    pub fn advance(&mut self, facts: &PathFacts)
        requires
            old(self)@.open(),
        ensures
            final(self)@ == old(self)@.stepped(facts_view(*facts)),
            facts.canonical is None && is_absolute(old(self)@.asked()) ==> is_absolute(
                final(self)@.growing,
            ),
    {
        assert(texts(self.parts@).len() == self.parts.len());
        let part = &self.parts[self.next];
        assert(texts(self.parts@)[self.next as int] == part@);
        let g = chars_of(self.growing.as_str());
        let j = join_chars(&g, part);
        let extended = string_of(&j, 0, j.len());
        assert(extended@ =~= j@);
        assert(j@ == old(self)@.asked());
        let mine = split(&j);
        let theirs = split(&chars_of(self.base.0.0.as_str()));
        if starts_with(&mine, &theirs) && facts.is_symlink {
            self.growing = extended;
            self.stopped = true;
        } else {
            self.growing = match &facts.canonical {
                Some(c) => c.clone(),
                None => clean(extended.as_str()),
            };
        }
        self.next = self.next + 1;
    }

    /// The scoped path at the end of the walk.
    pub fn finish(self) -> (r: ScopedPath)
        ensures
            r.base.text() == self@.base,
            r.absolute.text() == self@.reached(),
            r.inner@ == self@.inner(),
    {
        let rest = glue(&self.parts, self.next);
        assert(rest@ == glued(self@.parts, self@.next));
        let whole = if rest.len() == 0 {
            self.growing.clone()
        } else {
            let g = chars_of(self.growing.as_str());
            let j = join_chars(&g, &rest);
            let w = string_of(&j, 0, j.len());
            assert(w@ =~= j@);
            w
        };
        let absolute = AbsPath::from(whole.as_str(), &self.base.0);
        assert(absolute.text() == self@.reached());
        let inner = match absolute.rel_to(&self.base) {
            Some(rel) => {
                if rel.as_str().unicode_len() == 0 {
                    let mut dot: Vec<char> = Vec::new();
                    dot.push('.');
                    assert(dot@ =~= seq!['.']);
                    string_of(&dot, 0, 1)
                } else {
                    rel
                }
            },
            None => absolute.0.clone(),
        };
        ScopedPath { base: self.base, inner, absolute }
    }
}

/// An absolute path together with the root of the store. What is stored
/// of it is relative to the root where the path lies in it.
#[derive(Debug, Clone, PartialEq, Eq)]
pub struct ScopedPath {
    pub base: CanonicalPath,
    pub inner: String,
    pub absolute: AbsPath,
}

/// Whether a relative path is one component that the entries know
/// neither as a link nor as something that exists.
pub open spec fn plain_new_name(base: Seq<char>, path: Seq<char>, fs: Seq<FsEntry>) -> bool {
    &&& is_absolute(base)
    &&& !is_absolute(path)
    &&& components(path) == seq![path]
    &&& looked_up(fs, joined(base, path)) == (false, None::<Seq<char>>)
}

/// The directory of a stored path: all components but the last, `.`
/// where a relative path has but one, the root where an absolute path
/// has but one.
pub open spec fn dir_of(inner: Seq<char>) -> Seq<char> {
    let parts = components(inner);
    if parts.len() == 0 {
        inner
    } else if parts.len() == 1 {
        if is_absolute(inner) {
            seq!['/']
        } else {
            seq!['.']
        }
    } else if is_absolute(inner) {
        seq!['/'] + glued(parts.drop_last(), 0)
    } else {
        glued(parts.drop_last(), 0)
    }
}

/// The name of a stored path: its last component; the path itself where
/// it has none.
pub open spec fn name_of(inner: Seq<char>) -> Seq<char> {
    let parts = components(inner);
    if parts.len() == 0 {
        inner
    } else {
        parts.last()
    }
}

impl ScopedPath {
    /// The scoped path of `path` under `base`, with the facts of the
    /// file system taken from a list of entries.
    pub fn new(base: &CanonicalPath, path: &str, fs: &Vec<FsEntry>) -> (r: ScopedPath)
        ensures
            r.base.text() == base.text(),
            r.absolute.text() == WalkView::start(base.text(), path@).walked(fs@).reached(),
            r.inner@ == WalkView::start(base.text(), path@).walked(fs@).inner(),
            plain_new_name(base.text(), path@, fs@) ==> r.absolute.text() == cleaned(
                joined(base.text(), path@),
            ),
    {
        let mut walk = Walk::start(base, path);
        let ghost first = walk@;
        let ghost plain = plain_new_name(base.text(), path@, fs@);
        let ghost whole = joined(base.text(), path@);
        proof {
            if plain {
                assert(whole[0] == '/');
            }
        }
        loop
            invariant
                first.walked(fs@) == walk@.walked(fs@),
                0 <= walk@.next <= walk@.parts.len(),
                walk@.base == base.text(),
                plain == plain_new_name(base.text(), path@, fs@),
                whole == joined(base.text(), path@),
                plain ==> is_absolute(whole) && walk@.parts == seq![path@] && !walk@.stopped,
                plain && walk@.next == 0 ==> walk@.growing == base.text(),
                plain && walk@.next == 1 ==> walk@.growing == cleaned(whole) && is_absolute(
                    walk@.growing,
                ),
            ensures
                !walk@.open(),
            decreases walk@.parts.len() - walk@.next,
        {
            match walk.probe() {
                None => {
                    break ;
                },
                Some(p) => {
                    let facts = look_up(fs, p.as_str());
                    walk.advance(&facts);
                },
            }
        }
        proof {
            if plain {
                assert(walk@.next == 1);
                assert(glued(walk@.parts, 1) =~= Seq::<char>::empty());
            }
        }
        walk.finish()
    }

    /// The directory and the name under which the path is stored.
    pub fn inner_as_dir_and_name(&self) -> (r: (String, String))
        ensures
            r.0@ == dir_of(self.inner@),
            r.1@ == name_of(self.inner@),
    {
        let v = chars_of(self.inner.as_str());
        let mut parts = split(&v);
        if parts.len() == 0 {
            return (self.inner.clone(), self.inner.clone());
        }
        let ghost all = texts(parts@);
        let last = parts.pop().unwrap();
        assert(texts(parts@) =~= all.drop_last());
        assert(last@ == all.last());
        let name = string_of(&last, 0, last.len());
        let absolute = v.len() > 0 && v[0] == '/';
        let mut dir: Vec<char> = Vec::new();
        if parts.len() == 0 {
            dir.push(if absolute {
                '/'
            } else {
                '.'
            });
            assert(dir@ =~= if absolute {
                seq!['/']
            } else {
                seq!['.']
            });
        } else {
            if absolute {
                dir.push('/');
            }
            let body = glue(&parts, 0);
            let ghost head = dir@;
            let mut i: usize = 0;
            while i < body.len()
                invariant
                    i <= body.len(),
                    dir@ == head + body@.subrange(0, i as int),
                decreases body.len() - i,
            {
                dir.push(body[i]);
                i += 1;
                assert(dir@ =~= head + body@.subrange(0, i as int));
            }
            assert(body@.subrange(0, body.len() as int) =~= body@);
            assert(dir@ =~= head + body@);
            assert(seq!['/'] + body@ =~= seq!['/'] + glued(all.drop_last(), 0));
        }
        (string_of(&dir, 0, dir.len()), name)
    }

    pub fn inner(&self) -> (r: &str)
        ensures
            r@ == self.inner@,
    {
        self.inner.as_str()
    }

    /// Whether the root of the store lies in this path or is this path.
    pub fn contains_root(&self) -> (r: bool)
        ensures
            r == within(self.base.text(), self.absolute.text()),
    {
        let root = split(&chars_of(self.base.0.0.as_str()));
        let mine = split(&chars_of(self.absolute.0.as_str()));
        starts_with(&root, &mine)
    }
}


/// The root of a store from the canonical path of its database: the
/// directory above `.tmsu` where the database lies in a directory of
/// that name, else the directory of the database. There is none where
/// the database lies right under the root of the file system.
pub open spec fn root_of(db_path: Seq<char>) -> Option<Seq<char>> {
    let parts = components(db_path);
    if parts.len() < 2 {
        None
    } else if parts[parts.len() - 2] == ".tmsu"@ {
        Some(seq!['/'] + glued(parts.take(parts.len() - 2), 0))
    } else {
        Some(seq!['/'] + glued(parts.take(parts.len() - 1), 0))
    }
}

pub fn determine_root_path(db_path: &CanonicalPath) -> (r: Result<String, Error>)
    ensures
        match root_of(db_path.text()) {
            Some(root) => r is Ok && r->Ok_0@ == root,
            None => r == Err::<String, Error>(Error::NoRootPath),
        },
{
    let mut parts = split(&chars_of(db_path.0.0.as_str()));
    let ghost all = texts(parts@);
    assert(all.len() == parts.len());
    if parts.len() < 2 {
        return Err(Error::NoRootPath);
    }
    let file = parts.pop().unwrap();
    assert(texts(parts@) =~= all.take(all.len() - 1));
    let dir = string_of(&parts[parts.len() - 1], 0, parts[parts.len() - 1].len());
    assert(dir@ =~= all[all.len() - 2]) by {
        assert(texts(parts@)[parts.len() - 1] == parts@[parts.len() - 1]@);
    }
    if same_text(dir.as_str(), ".tmsu") {
        let inside = parts.pop().unwrap();
        assert(texts(parts@) =~= all.take(all.len() - 2));
    }
    let body = glue(&parts, 0);
    let mut out: Vec<char> = Vec::new();
    out.push('/');
    let ghost head = out@;
    let mut i: usize = 0;
    while i < body.len()
        invariant
            i <= body.len(),
            out@ == head + body@.subrange(0, i as int),
        decreases body.len() - i,
    {
        out.push(body[i]);
        i += 1;
        assert(out@ =~= head + body@.subrange(0, i as int));
    }
    assert(body@.subrange(0, body.len() as int) =~= body@);
    assert(out@ =~= seq!['/'] + body@);
    let r = string_of(&out, 0, out.len());
    assert(r@ =~= out@);
    Ok(r)
}

} // verus!
