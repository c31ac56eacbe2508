//! Workspace ignore rules and the ripgrep globs built from them.

use vstd::prelude::*;

use crate::order::{insert_sorted_unique, lemma_strictly_sorted_unique, strictly_sorted, views};
use crate::text::{
    chars_of, string_of, string_views, trim, trim_bounds, trim_by, trim_start_by, trim_start_index, CharClass,
};

verus! {

/// What the `[ignore]` table of a workspace configuration lists.
pub struct IgnoreConfig {
    /// File extensions to exclude. Both `md` and `.md` are accepted.
    pub extensions: Vec<String>,
    /// Directory paths, relative to the workspace, to exclude recursively.
    pub directories: Vec<String>,
    /// File names or ripgrep glob patterns to exclude.
    pub files: Vec<String>,
}

pub ghost struct IgnoreConfigView {
    pub extensions: Seq<Seq<char>>,
    pub directories: Seq<Seq<char>>,
    pub files: Seq<Seq<char>>,
}

impl View for IgnoreConfig {
    type V = IgnoreConfigView;

    open spec fn view(&self) -> IgnoreConfigView {
        IgnoreConfigView {
            extensions: string_views(self.extensions@),
            directories: string_views(self.directories@),
            files: string_views(self.files@),
        }
    }
}

/// The rules of `base` followed by those of `additional`.
pub open spec fn merged(base: IgnoreConfigView, additional: IgnoreConfigView) -> IgnoreConfigView {
    IgnoreConfigView {
        extensions: base.extensions + additional.extensions,
        directories: base.directories + additional.directories,
        files: base.files + additional.files,
    }
}

/// The exclusion glob for a directory entry: blanks and slashes around it go.
pub open spec fn directory_glob_of(directory: Seq<char>) -> Option<Seq<char>> {
    let d = trim_by(trim(directory), CharClass::Exactly('/'));
    if d.len() == 0 {
        None
    } else {
        Some(seq!['!'] + d + seq!['/', '*', '*'])
    }
}

/// The exclusion glob for an extension entry: blanks around it and leading
/// dots go.
pub open spec fn extension_glob_of(extension: Seq<char>) -> Option<Seq<char>> {
    let e = trim_start_by(trim(extension), CharClass::Exactly('.'));
    if e.len() == 0 {
        None
    } else {
        Some(seq!['!', '*', '.'] + e)
    }
}

/// The exclusion glob for a file entry: blanks around it go.
pub open spec fn file_glob_of(file: Seq<char>) -> Option<Seq<char>> {
    let f = trim(file);
    if f.len() == 0 {
        None
    } else {
        Some(seq!['!'] + f)
    }
}

/// The values of the entries of `s` that are present, in order.
pub open spec fn present(s: Seq<Option<Seq<char>>>) -> Seq<Seq<char>>
    decreases s.len(),
{
    if s.len() == 0 {
        Seq::empty()
    } else {
        match s.last() {
            Some(g) => present(s.drop_last()).push(g),
            None => present(s.drop_last()),
        }
    }
}

/// Every glob that the entries of `config` give, in entry order: directories,
/// then extensions, then files.
pub open spec fn candidate_globs(config: IgnoreConfigView) -> Seq<Seq<char>> {
    present(config.directories.map_values(|d: Seq<char>| directory_glob_of(d))) + present(
        config.extensions.map_values(|e: Seq<char>| extension_glob_of(e)),
    ) + present(config.files.map_values(|f: Seq<char>| file_glob_of(f)))
}

/// The globs given to ripgrep for `config`: its candidate globs, sorted and
/// without repeats.
pub open spec fn is_glob_list_of(globs: Seq<Seq<char>>, config: IgnoreConfigView) -> bool {
    &&& strictly_sorted(globs)
    &&& globs.to_set() == candidate_globs(config).to_set()
}

pub open spec fn option_view(o: Option<String>) -> Option<Seq<char>> {
    match o {
        Some(s) => Some(s@),
        None => None,
    }
}

pub open spec fn option_chars(o: Option<Vec<char>>) -> Option<Seq<char>> {
    match o {
        Some(s) => Some(s@),
        None => None,
    }
}

impl IgnoreConfig {
    /// Appends the rules of `additional` to those of `self`.
    pub fn extend(&mut self, additional: Self)
        ensures
            final(self)@ == merged(old(self)@, additional@),
    {
        let ghost a = additional@;
        let mut additional = additional;
        self.extensions.append(&mut additional.extensions);
        self.directories.append(&mut additional.directories);
        self.files.append(&mut additional.files);
        assert(self@.extensions =~= old(self)@.extensions + a.extensions);
        assert(self@.directories =~= old(self)@.directories + a.directories);
        assert(self@.files =~= old(self)@.files + a.files);
    }
}

/// The search settings that a workspace's configuration gives.
pub struct SearchOptions {
    ignored_globs: Vec<String>,
}

impl View for SearchOptions {
    type V = Seq<Seq<char>>;

    /// The globs excluded from every search, in order.
    closed spec fn view(&self) -> Seq<Seq<char>> {
        string_views(self.ignored_globs@)
    }
}

impl Default for SearchOptions {
    fn default() -> (options: Self)
        ensures
            options@ == Seq::<Seq<char>>::empty(),
    {
        let options = SearchOptions { ignored_globs: Vec::new() };
        assert(options@ =~= Seq::<Seq<char>>::empty());
        options
    }
}

impl SearchOptions {
    /// The settings for the bundled default rules, with the rules of the
    /// workspace's own configuration appended where it has one.
    pub fn load(defaults: IgnoreConfig, workspace: Option<IgnoreConfig>) -> (options: Self)
        ensures
            is_glob_list_of(
                options@,
                match workspace {
                    Some(w) => merged(defaults@, w@),
                    None => defaults@,
                },
            ),
    {
        let mut config = defaults;
        if let Some(w) = workspace {
            config.extend(w);
        }
        let options = SearchOptions { ignored_globs: ignore_globs(&config) };
        options
    }

    /// The globs excluded from every search.
    pub fn ignored_globs(&self) -> (globs: &[String])
        ensures
            globs@.map_values(|g: String| g@) == self@,
    {
        proof {
            assert(self.ignored_globs@.map_values(|g: String| g@) =~= self@);
        }
        self.ignored_globs.as_slice()
    }
}

/// A vector holding `s[start..end]`.
pub fn sub_vec(s: &[char], start: usize, end: usize) -> (res: Vec<char>)
    requires
        start <= end <= s.len(),
    ensures
        res@ == s@.subrange(start as int, end as int),
{
    let mut res: Vec<char> = Vec::new();
    let mut i = start;
    while i < end
        invariant
            start <= i <= end <= s.len(),
            res@ == s@.subrange(start as int, i as int),
        decreases end - i,
    {
        res.push(s[i]);
        assert(s@.subrange(start as int, i + 1) == s@.subrange(start as int, i as int).push(
            s@[i as int],
        ));
        i += 1;
    }
    res
}

/// `prefix`, then `s[start..end]`, then `suffix`.
fn framed(prefix: &[char], s: &[char], start: usize, end: usize, suffix: &[char]) -> (res: Vec<char>)
    requires
        start <= end <= s.len(),
    ensures
        res@ == prefix@ + s@.subrange(start as int, end as int) + suffix@,
{
    let mut res = sub_vec(prefix, 0, prefix.len());
    assert(prefix@.subrange(0, prefix@.len() as int) == prefix@);
    let mut middle = sub_vec(s, start, end);
    let mut tail = sub_vec(suffix, 0, suffix.len());
    assert(suffix@.subrange(0, suffix@.len() as int) == suffix@);
    res.append(&mut middle);
    res.append(&mut tail);
    res
}

fn directory_glob_chars(directory: &[char]) -> (res: Option<Vec<char>>)
    ensures
        option_chars(res) == directory_glob_of(directory@),
{
    let (s, e) = trim_bounds(directory, &CharClass::Whitespace);
    let trimmed = sub_vec(directory, s, e);
    let (s2, e2) = trim_bounds(trimmed.as_slice(), &CharClass::Exactly('/'));
    if s2 == e2 {
        None
    } else {
        Some(framed(&['!'], trimmed.as_slice(), s2, e2, &['/', '*', '*']))
    }
}

fn extension_glob_chars(extension: &[char]) -> (res: Option<Vec<char>>)
    ensures
        option_chars(res) == extension_glob_of(extension@),
{
    let (s, e) = trim_bounds(extension, &CharClass::Whitespace);
    let trimmed = sub_vec(extension, s, e);
    let s2 = trim_start_index(trimmed.as_slice(), trimmed.len(), &CharClass::Exactly('.'));
    assert(trimmed@.take(trimmed@.len() as int) == trimmed@);
    if s2 == trimmed.len() {
        None
    } else {
        Some(framed(&['!', '*', '.'], trimmed.as_slice(), s2, trimmed.len(), &[]))
    }
}

fn file_glob_chars(file: &[char]) -> (res: Option<Vec<char>>)
    ensures
        option_chars(res) == file_glob_of(file@),
{
    let (s, e) = trim_bounds(file, &CharClass::Whitespace);
    if s == e {
        None
    } else {
        Some(framed(&['!'], file, s, e, &[]))
    }
}

/// The exclusion glob for a directory entry, `None` for a blank entry.
pub fn directory_glob(directory: &str) -> (res: Option<String>)
    ensures
        option_view(res) == directory_glob_of(directory@),
{
    match directory_glob_chars(chars_of(directory).as_slice()) {
        Some(g) => Some(string_of(g.as_slice())),
        None => None,
    }
}

/// The exclusion glob for an extension entry, `None` for a blank entry.
pub fn extension_glob(extension: &str) -> (res: Option<String>)
    ensures
        option_view(res) == extension_glob_of(extension@),
{
    match extension_glob_chars(chars_of(extension).as_slice()) {
        Some(g) => Some(string_of(g.as_slice())),
        None => None,
    }
}

/// The exclusion glob for a file entry, `None` for a blank entry.
pub fn file_glob(file: &str) -> (res: Option<String>)
    ensures
        option_view(res) == file_glob_of(file@),
{
    match file_glob_chars(chars_of(file).as_slice()) {
        Some(g) => Some(string_of(g.as_slice())),
        None => None,
    }
}

proof fn lemma_present_push(s: Seq<Option<Seq<char>>>, x: Option<Seq<char>>)
    ensures
        present(s.push(x)) == match x {
            Some(g) => present(s).push(g),
            None => present(s),
        },
{
    assert(s.push(x).drop_last() == s);
}

proof fn lemma_push_to_set(s: Seq<Seq<char>>, x: Seq<char>)
    ensures
        s.push(x).to_set() == s.to_set().insert(x),
{
    assert forall|y: Seq<char>| s.push(x).to_set().contains(y) implies s.to_set().insert(
        x,
    ).contains(y) by {
        let k = choose|k: int| 0 <= k < s.push(x).len() && s.push(x)[k] == y;
        if k < s.len() {
            assert(s[k] == y);
        }
    }
    assert forall|y: Seq<char>| s.to_set().insert(x).contains(y) implies s.push(x).to_set().contains(
        y,
    ) by {
        if y == x {
            assert(s.push(x)[s.len() as int] == y);
        } else {
            let k = choose|k: int| 0 <= k < s.len() && s[k] == y;
            assert(s.push(x)[k] == y);
        }
    }
    assert(s.push(x).to_set() =~= s.to_set().insert(x));
}

/// Which kind of entry a glob is built from.
enum EntryKind {
    Directory,
    Extension,
    File,
}

spec fn glob_of(kind: EntryKind, entry: Seq<char>) -> Option<Seq<char>> {
    match kind {
        EntryKind::Directory => directory_glob_of(entry),
        EntryKind::Extension => extension_glob_of(entry),
        EntryKind::File => file_glob_of(entry),
    }
}

/// Adds the globs of `entries` to the sorted, repeat-free `list`.
fn add_globs(list: &mut Vec<Vec<char>>, entries: &Vec<String>, kind: EntryKind) -> (added: Ghost<
    Seq<Seq<char>>,
>)
    requires
        strictly_sorted(views(old(list)@)),
    ensures
        added@ == present(string_views(entries@).map_values(|e: Seq<char>| glob_of(kind, e))),
        strictly_sorted(views(final(list)@)),
        views(final(list)@).to_set() == views(old(list)@).to_set() + added@.to_set(),
{
    let ghost start = views(list@);
    let ghost entry_views = string_views(entries@);
    let ghost globs = entry_views.map_values(|e: Seq<char>| glob_of(kind, e));
    let ghost mut added: Seq<Seq<char>> = Seq::empty();
    let mut i: usize = 0;
    assert(globs.take(0) =~= Seq::<Option<Seq<char>>>::empty());
    assert(start.to_set() + added.to_set() =~= start.to_set());
    while i < entries.len()
        invariant
            i <= entries.len(),
            entry_views == string_views(entries@),
            globs == entry_views.map_values(|e: Seq<char>| glob_of(kind, e)),
            added == present(globs.take(i as int)),
            strictly_sorted(views(list@)),
            views(list@).to_set() == start.to_set() + added.to_set(),
        decreases entries.len() - i,
    {
        let chars = chars_of(entries[i].as_str());
        let glob = match kind {
            EntryKind::Directory => directory_glob_chars(chars.as_slice()),
            EntryKind::Extension => extension_glob_chars(chars.as_slice()),
            EntryKind::File => file_glob_chars(chars.as_slice()),
        };
        assert(option_chars(glob) == globs[i as int]);
        assert(globs.take(i + 1) == globs.take(i as int).push(globs[i as int]));
        proof {
            lemma_present_push(globs.take(i as int), globs[i as int]);
        }
        match glob {
            Some(g) => {
                proof {
                    lemma_push_to_set(added, g@);
                    added = added.push(g@);
                }
                insert_sorted_unique(list, g);
                assert(views(list@).to_set() =~= start.to_set() + added.to_set());
            },
            None => {},
        }
        i += 1;
    }
    assert(globs.take(entries.len() as int) == globs);
    Ghost(added)
}

proof fn lemma_concat_to_set(a: Seq<Seq<char>>, b: Seq<Seq<char>>)
    ensures
        (a + b).to_set() == a.to_set() + b.to_set(),
{
    assert forall|y: Seq<char>| (a + b).to_set().contains(y) implies (a.to_set()
        + b.to_set()).contains(y) by {
        let k = choose|k: int| 0 <= k < (a + b).len() && (a + b)[k] == y;
        if k < a.len() {
            assert(a[k] == y);
        } else {
            assert(b[k - a.len()] == y);
        }
    }
    assert forall|y: Seq<char>| (a.to_set() + b.to_set()).contains(y) implies (a
        + b).to_set().contains(y) by {
        if a.to_set().contains(y) {
            let k = choose|k: int| 0 <= k < a.len() && a[k] == y;
            assert((a + b)[k] == y);
        } else {
            let k = choose|k: int| 0 <= k < b.len() && b[k] == y;
            assert((a + b)[k + a.len()] == y);
        }
    }
    assert((a + b).to_set() =~= a.to_set() + b.to_set());
}

/// The ripgrep globs that exclude what `config` lists: one per non-blank
/// entry, sorted, each once.
pub fn ignore_globs(config: &IgnoreConfig) -> (globs: Vec<String>)
    ensures
        is_glob_list_of(string_views(globs@), config@),
{
    let mut list: Vec<Vec<char>> = Vec::new();
    assert(views(list@) =~= Seq::<Seq<char>>::empty());
    let Ghost(d) = add_globs(&mut list, &config.directories, EntryKind::Directory);
    let Ghost(e) = add_globs(&mut list, &config.extensions, EntryKind::Extension);
    let Ghost(f) = add_globs(&mut list, &config.files, EntryKind::File);
    proof {
        let c = config@;
        assert(c.directories.map_values(|x: Seq<char>| glob_of(EntryKind::Directory, x))
            =~= c.directories.map_values(|x: Seq<char>| directory_glob_of(x)));
        assert(c.extensions.map_values(|x: Seq<char>| glob_of(EntryKind::Extension, x))
            =~= c.extensions.map_values(|x: Seq<char>| extension_glob_of(x)));
        assert(c.files.map_values(|x: Seq<char>| glob_of(EntryKind::File, x))
            =~= c.files.map_values(|x: Seq<char>| file_glob_of(x)));
        assert(candidate_globs(c) == d + e + f);
        lemma_concat_to_set(d, e);
        lemma_concat_to_set(d + e, f);
        assert(Seq::<Seq<char>>::empty().to_set() =~= Set::<Seq<char>>::empty());
        assert(views(list@).to_set() =~= candidate_globs(c).to_set());
    }
    let mut globs: Vec<String> = Vec::new();
    let mut i: usize = 0;
    while i < list.len()
        invariant
            i <= list.len(),
            globs@.len() == i,
            views(list@).len() == list@.len(),
            string_views(globs@) == views(list@).take(i as int),
        decreases list.len() - i,
    {
        let g = string_of(list[i].as_slice());
        let ghost before = string_views(globs@);
        let ghost old_globs = globs@;
        globs.push(g);
        assert(globs@ == old_globs.push(g));
        assert forall|k: int| 0 <= k < i + 1 implies string_views(globs@)[k] == views(list@).take(
            i + 1,
        )[k] by {
            if k < i {
                assert(globs@[k] == old_globs[k]);
                assert(string_views(globs@)[k] == before[k]);
            } else {
                assert(globs@[k] == g);
                assert(views(list@)[k] == list@[k]@);
            }
        }
        assert(string_views(globs@) =~= views(list@).take(i + 1));
        i += 1;
    }
    assert(views(list@).take(list.len() as int) == views(list@));
    globs
}

proof fn lemma_present_concat(u: Seq<Option<Seq<char>>>, v: Seq<Option<Seq<char>>>)
    ensures
        present(u + v) == present(u) + present(v),
    decreases v.len(),
{
    if v.len() == 0 {
        assert(u + v == u);
        assert(present(v) == Seq::<Seq<char>>::empty());
        assert(present(u) + present(v) == present(u));
    } else {
        let w = v.drop_last();
        assert((u + v).drop_last() == u + w);
        assert((u + v).last() == v.last());
        lemma_present_concat(u, w);
        match v.last() {
            Some(g) => {
                assert(present(u) + present(w).push(g) == (present(u) + present(w)).push(g));
            },
            None => {},
        }
    }
}

proof fn lemma_present_map_concat(
    x: Seq<Seq<char>>,
    y: Seq<Seq<char>>,
    f: spec_fn(Seq<char>) -> Option<Seq<char>>,
)
    ensures
        present((x + y).map_values(f)) == present(x.map_values(f)) + present(y.map_values(f)),
{
    assert((x + y).map_values(f) =~= x.map_values(f) + y.map_values(f));
    lemma_present_concat(x.map_values(f), y.map_values(f));
}

/// Merging configurations unions their globs: the globs of `base` with
/// `additional` appended are those of `base` together with those of
/// `additional`, so the order in which two configurations are merged does not
/// change the globs given to ripgrep.
pub proof fn law_merged_globs_are_union(base: IgnoreConfigView, additional: IgnoreConfigView)
    ensures
        candidate_globs(merged(base, additional)).to_set() == candidate_globs(base).to_set()
            + candidate_globs(additional).to_set(),
        candidate_globs(merged(base, additional)).to_set() == candidate_globs(
            merged(additional, base),
        ).to_set(),
{
    let fd = |d: Seq<char>| directory_glob_of(d);
    let fe = |e: Seq<char>| extension_glob_of(e);
    let ff = |f: Seq<char>| file_glob_of(f);
    let (b, a) = (base, additional);
    lemma_present_map_concat(b.directories, a.directories, fd);
    lemma_present_map_concat(b.extensions, a.extensions, fe);
    lemma_present_map_concat(b.files, a.files, ff);
    lemma_present_map_concat(a.directories, b.directories, fd);
    lemma_present_map_concat(a.extensions, b.extensions, fe);
    lemma_present_map_concat(a.files, b.files, ff);
    let (bd, be, bf) = (
        present(b.directories.map_values(fd)),
        present(b.extensions.map_values(fe)),
        present(b.files.map_values(ff)),
    );
    let (ad, ae, af) = (
        present(a.directories.map_values(fd)),
        present(a.extensions.map_values(fe)),
        present(a.files.map_values(ff)),
    );
    assert(candidate_globs(b) == bd + be + bf);
    assert(candidate_globs(a) == ad + ae + af);
    assert(candidate_globs(merged(b, a)) == (bd + ad) + (be + ae) + (bf + af));
    assert(candidate_globs(merged(a, b)) == (ad + bd) + (ae + be) + (af + bf));
    lemma_concat_to_set(bd, be);
    lemma_concat_to_set(bd + be, bf);
    lemma_concat_to_set(ad, ae);
    lemma_concat_to_set(ad + ae, af);
    lemma_concat_to_set(bd, ad);
    lemma_concat_to_set(be, ae);
    lemma_concat_to_set(bf, af);
    lemma_concat_to_set(bd + ad, be + ae);
    lemma_concat_to_set((bd + ad) + (be + ae), bf + af);
    lemma_concat_to_set(ad, bd);
    lemma_concat_to_set(ae, be);
    lemma_concat_to_set(af, bf);
    lemma_concat_to_set(ad + bd, ae + be);
    lemma_concat_to_set((ad + bd) + (ae + be), af + bf);
    assert(candidate_globs(merged(b, a)).to_set() =~= candidate_globs(b).to_set()
        + candidate_globs(a).to_set());
    assert(candidate_globs(merged(b, a)).to_set() =~= candidate_globs(merged(a, b)).to_set());
}

/// The globs given to ripgrep do not depend on the order in which two
/// configurations are merged.
pub proof fn law_merge_order_irrelevant(
    a: IgnoreConfigView,
    b: IgnoreConfigView,
    globs_ab: Seq<Seq<char>>,
    globs_ba: Seq<Seq<char>>,
)
    requires
        is_glob_list_of(globs_ab, merged(a, b)),
        is_glob_list_of(globs_ba, merged(b, a)),
    ensures
        globs_ab == globs_ba,
{
    law_merged_globs_are_union(a, b);
    lemma_strictly_sorted_unique(globs_ab, globs_ba);
}

} // verus!
