//! The change classifier: diffs two fingerprint snapshots into a `Full` or
//! `Targeted` verdict, the heart of the incremental rebuild decision.

use vstd::prelude::*;
use vstd::seq_lib::group_filter_ensures;
use crate::digest_map::{DigestMap, DigestPair, lookup, keys_distinct};
use crate::strutil::{starts_with, chars_vec, chars_eq, chars_starts_with, chars_to_string};
use crate::dates::{spec_post_slug, spec_strip_md, extract_post_slug, strip_md_chars};
use crate::targets::{RenderTarget, TargetView, TargetSet, spec_should_render};

verus! {

/// The fingerprint snapshot produced at the end of a successful build and
/// consumed as the baseline for the next.
#[derive(Debug, Clone)]
pub struct BuildState {
    pub content_hashes: DigestMap,
}

/// The verdict of diffing two snapshots. `Full` means "assume everything
/// changed"; `Targeted` carries exactly the paths whose digest differs or is
/// new, and never lists deletions individually (a deletion forces `Full`).
#[derive(Debug, Clone)]
pub enum ChangeClassification {
    Full,
    Targeted { changed_files: Vec<String> },
}

/// A classification as the specifications see it.
pub enum ClassificationView {
    Full,
    Targeted(Seq<Seq<char>>),
}

/// The views of a sequence of strings.
pub open spec fn strs_view(s: Seq<String>) -> Seq<Seq<char>> {
    s.map_values(|x: String| x@)
}

impl View for ChangeClassification {
    type V = ClassificationView;

    open spec fn view(&self) -> ClassificationView {
        match self {
            ChangeClassification::Full => ClassificationView::Full,
            ChangeClassification::Targeted { changed_files } => ClassificationView::Targeted(
                strs_view(changed_files@),
            ),
        }
    }
}

impl PartialEq for ChangeClassification {
    fn eq(&self, other: &Self) -> (r: bool) {
        match (self, other) {
            (ChangeClassification::Full, ChangeClassification::Full) => true,
            (
                ChangeClassification::Targeted { changed_files: a },
                ChangeClassification::Targeted { changed_files: b },
            ) => {
                if a.len() != b.len() {
                    assert(strs_view(a@).len() != strs_view(b@).len());
                    return false;
                }
                let n = a.len();
                let mut i: usize = 0;
                while i < n
                    invariant
                        n == a@.len(),
                        n == b@.len(),
                        i <= n,
                        self@ == ClassificationView::Targeted(strs_view(a@)),
                        other@ == ClassificationView::Targeted(strs_view(b@)),
                        forall|j: int| 0 <= j < i ==> a@[j]@ == b@[j]@,
                    decreases n - i,
                {
                    if !a[i].eq(&b[i]) {
                        assert(strs_view(a@)[i as int] != strs_view(b@)[i as int]);
                        assert(strs_view(a@) != strs_view(b@));
                        return false;
                    }
                    i = i + 1;
                }
                assert(strs_view(a@) =~= strs_view(b@));
                true
            },
            _ => false,
        }
    }
}

impl vstd::std_specs::cmp::PartialEqSpecImpl for ChangeClassification {
    open spec fn obeys_eq_spec() -> bool {
        true
    }

    open spec fn eq_spec(&self, other: &Self) -> bool {
        self@ == other@
    }
}

/// The configuration file's root-relative path.
pub open spec fn config_file_path() -> Seq<char> {
    "bamboo.toml"@
}

/// The prefix under which template files live.
pub open spec fn templates_prefix() -> Seq<char> {
    "templates/"@
}

/// A changed path that forces a site-wide rebuild: the configuration file or
/// anything under `templates/`.
pub open spec fn is_full_trigger_path(p: Seq<char>) -> bool {
    p == config_file_path() || starts_with(p, templates_prefix())
}

/// The predicate selecting a changed entry: its key is absent from `old` or
/// bound to a different digest there.
pub open spec fn changed_pred(old: Seq<DigestPair>) -> spec_fn(DigestPair) -> bool {
    |p: DigestPair| lookup(old, p.0) != Some(p.1)
}

/// The changed paths, in the order the new snapshot lists them.
pub open spec fn spec_changed_files(old: Seq<DigestPair>, new: Seq<DigestPair>) -> Seq<Seq<char>> {
    new.filter(changed_pred(old)).map_values(|p: DigestPair| p.0)
}

/// Whether some key of `old` is gone from `new`.
pub open spec fn spec_has_deletions(old: Seq<DigestPair>, new: Seq<DigestPair>) -> bool {
    exists|i: int| 0 <= i < old.len() && lookup(new, old[i].0) is None
}

/// The classification algorithm on snapshot views: an empty diff is the
/// no-op signal; a config/template change or any deletion is `Full`;
/// anything else is `Targeted` with the changed paths.
pub open spec fn spec_classify(old: Seq<DigestPair>, new: Seq<DigestPair>) -> ClassificationView {
    let changed = spec_changed_files(old, new);
    if changed.len() == 0 && !spec_has_deletions(old, new) {
        ClassificationView::Targeted(Seq::empty())
    } else if (exists|j: int| 0 <= j < changed.len() && is_full_trigger_path(changed[j]))
        || spec_has_deletions(old, new) {
        ClassificationView::Full
    } else {
        ClassificationView::Targeted(changed)
    }
}

/// Idempotence of the classifier: diffing any snapshot against itself is
/// the no-op signal, `Targeted` with an empty change list.
pub proof fn lemma_classify_idempotent(h: Seq<DigestPair>)
    requires
        keys_distinct(h),
    ensures
        spec_classify(h, h) == ClassificationView::Targeted(Seq::<Seq<char>>::empty()),
{
    assert forall|i: int| 0 <= i < h.len() implies !(changed_pred(h)(h[i])) by {
        crate::digest_map::lemma_lookup_at_index(h, i);
    }
    assert(h.all(|x: DigestPair| !(changed_pred(h)(x)))) by {
        reveal(Seq::all);
        assert forall|x: DigestPair| h.contains(x) implies !(changed_pred(h)(x)) by {
            let i = choose|i: int| 0 <= i < h.len() && h[i] == x;
            assert(!(changed_pred(h)(h[i])));
        }
    }
    h.lemma_all_neg_filter_empty(changed_pred(h));
    assert(spec_changed_files(h, h) =~= Seq::<Seq<char>>::empty());
    assert forall|i: int| 0 <= i < h.len() implies !(lookup(h, h[i].0) is None) by {
        crate::digest_map::lemma_lookup_at_index(h, i);
    }
    assert(!spec_has_deletions(h, h));
}

/// Completeness and no duplication of the change list: a key of the new
/// snapshot appears in it exactly when its digest is new or differs from the
/// old snapshot's, no other entry appears, and no entry appears twice.
pub proof fn lemma_changed_files_exact(old: Seq<DigestPair>, new: Seq<DigestPair>)
    requires
        keys_distinct(new),
    ensures
        forall|i: int|
            0 <= i < new.len() && lookup(old, new[i].0) != Some(new[i].1)
                ==> spec_changed_files(old, new).contains(new[i].0),
        forall|j: int|
            0 <= j < spec_changed_files(old, new).len() ==> #[trigger] changed_entry_justified(
                old,
                new,
                j,
            ),
        forall|j1: int, j2: int|
            0 <= j1 < j2 < spec_changed_files(old, new).len() ==> spec_changed_files(old, new)[j1]
                != spec_changed_files(old, new)[j2],
{
    let pred = changed_pred(old);
    let kept = new.filter(pred);
    let cf = spec_changed_files(old, new);
    lemma_filter_distinct(new, pred);
    assert forall|i: int|
        0 <= i < new.len() && lookup(old, new[i].0) != Some(new[i].1) implies cf.contains(
        new[i].0,
    ) by {
        assert(pred(new[i]));
        new.lemma_filter_contains(pred, i);
        let j = choose|j: int| 0 <= j < kept.len() && kept[j] == new[i];
        assert(cf[j] == new[i].0);
    }
    assert forall|j: int| 0 <= j < cf.len() implies changed_entry_justified(old, new, j) by {
        new.lemma_filter_pred(pred, j);
        lemma_filter_subset(new, pred, j);
        let i = choose|i: int| 0 <= i < new.len() && new[i] == kept[j];
        assert(0 <= i < new.len() && new[i].0 == cf[j] && lookup(old, new[i].0) != Some(
            new[i].1,
        ));
    }
}

/// Entry `j` of the change list is justified: some entry of the new
/// snapshot carries that path with a new or differing digest.
pub open spec fn changed_entry_justified(old: Seq<DigestPair>, new: Seq<DigestPair>, j: int) -> bool {
    exists|i: int|
        0 <= i < new.len() && (#[trigger] new[i]).0 == spec_changed_files(old, new)[j] && lookup(
            old,
            new[i].0,
        ) != Some(new[i].1)
}

/// A filtered pair sequence keeps each element of the original.
proof fn lemma_filter_subset(s: Seq<DigestPair>, pred: spec_fn(DigestPair) -> bool, j: int)
    requires
        0 <= j < s.filter(pred).len(),
    ensures
        exists|i: int| 0 <= i < s.len() && s[i] == s.filter(pred)[j],
    decreases s.len(),
{
    reveal(Seq::filter);
    if s.len() == 0 {
    } else {
        let rest = s.drop_last();
        if pred(s.last()) && j == s.filter(pred).len() - 1 {
            assert(s[s.len() - 1] == s.filter(pred)[j]);
        } else {
            lemma_filter_subset(rest, pred, j);
            let i = choose|i: int| 0 <= i < rest.len() && rest[i] == rest.filter(pred)[j];
            assert(s[i] == s.filter(pred)[j]);
        }
    }
}

/// Filtering a distinct-keyed sequence yields a distinct-keyed sequence.
proof fn lemma_filter_distinct(s: Seq<DigestPair>, pred: spec_fn(DigestPair) -> bool)
    requires
        keys_distinct(s),
    ensures
        keys_distinct(s.filter(pred)),
    decreases s.len(),
{
    reveal(Seq::filter);
    if s.len() == 0 {
    } else {
        let rest = s.drop_last();
        assert(keys_distinct(rest));
        lemma_filter_distinct(rest, pred);
        if pred(s.last()) {
            let out = s.filter(pred);
            assert(out == rest.filter(pred).push(s.last()));
            assert forall|a: int, b: int| 0 <= a < b < out.len() implies out[a].0 != out[b].0 by {
                if b < out.len() - 1 {
                    assert(rest.filter(pred)[a] == out[a]);
                    assert(rest.filter(pred)[b] == out[b]);
                } else {
                    lemma_filter_subset(rest, pred, a);
                    let i = choose|i: int| 0 <= i < rest.len() && rest[i] == rest.filter(pred)[a];
                    assert(out[a] == s[i]);
                    assert(out[b] == s[s.len() - 1]);
                    assert(s[i].0 != s[s.len() - 1].0);
                }
            }
        }
    }
}

/// Conservatism on configuration and template edits: whenever the change
/// list holds `bamboo.toml` or a path under `templates/`, the verdict is
/// `Full`.
pub proof fn lemma_config_template_forces_full(old: Seq<DigestPair>, new: Seq<DigestPair>, j: int)
    requires
        0 <= j < spec_changed_files(old, new).len(),
        is_full_trigger_path(spec_changed_files(old, new)[j]),
    ensures
        spec_classify(old, new) == ClassificationView::Full,
{
    assert(spec_changed_files(old, new).len() > 0);
}

/// Conservatism on deletion: a key present in the old snapshot and absent
/// from the new one forces `Full`, whatever else changed.
pub proof fn lemma_deletion_forces_full(old: Seq<DigestPair>, new: Seq<DigestPair>, i: int)
    requires
        0 <= i < old.len(),
        lookup(new, old[i].0) is None,
    ensures
        spec_classify(old, new) == ClassificationView::Full,
{
    assert(spec_has_deletions(old, new));
}

/// The `content/posts/` prefix.
pub open spec fn posts_prefix() -> Seq<char> {
    "content/posts/"@
}

/// The `content/` prefix.
pub open spec fn content_prefix() -> Seq<char> {
    "content/"@
}

/// The `static/` prefix.
pub open spec fn static_prefix() -> Seq<char> {
    "static/"@
}

/// The `data/` prefix.
pub open spec fn data_prefix() -> Seq<char> {
    "data/"@
}

/// One past the position of the last `/`, or zero when there is none.
pub open spec fn last_slash_end(p: Seq<char>) -> int
    decreases p.len(),
{
    if p.len() == 0 {
        0
    } else if p.last() == '/' {
        p.len() as int
    } else {
        last_slash_end(p.drop_last())
    }
}

/// The bare filename: everything after the last `/`.
pub open spec fn file_name_of(p: Seq<char>) -> Seq<char> {
    p.skip(last_slash_end(p))
}

/// Whether the path holds a `/` at all.
pub open spec fn has_slash(s: Seq<char>) -> bool {
    exists|i: int| 0 <= i < s.len() && s[i] == '/'
}

/// The position of the first `/`, or the length when there is none.
pub open spec fn first_seg_end(s: Seq<char>) -> int
    decreases s.len(),
{
    if s.len() == 0 {
        0
    } else if s[0] == '/' {
        0
    } else {
        1 + first_seg_end(s.drop_first())
    }
}

/// The first path segment: everything before the first `/`.
pub open spec fn before_first_slash(s: Seq<char>) -> Seq<char> {
    s.take(first_seg_end(s))
}

/// The per-path invalidation rule of the expander. A post edit touches the
/// post, every aggregating view and the home page; a collection member
/// invalidates its whole collection; a top-level page invalidates itself;
/// `static/` and `data/` edits are not attributed and demand everything;
/// anything else is ignored. Global artifacts (sitemap, search index) follow
/// every attributed content change.
pub open spec fn targets_for_path(p: Seq<char>) -> Set<TargetView> {
    if starts_with(p, posts_prefix()) {
        set![
            TargetView::Post(spec_post_slug(file_name_of(p))),
            TargetView::Pagination,
            TargetView::Feeds,
            TargetView::Sitemap,
            TargetView::SearchIndex,
            TargetView::AllTaxonomies,
            TargetView::Page("index"@),
        ]
    } else if starts_with(p, content_prefix()) {
        let rel = p.skip(content_prefix().len() as int);
        if has_slash(rel) {
            set![TargetView::Collection(before_first_slash(rel)), TargetView::Sitemap, TargetView::SearchIndex]
        } else {
            let slug = spec_strip_md(rel);
            if slug == "_index"@ {
                set![TargetView::Page("index"@), TargetView::Sitemap, TargetView::SearchIndex]
            } else {
                set![TargetView::Page(slug), TargetView::Sitemap, TargetView::SearchIndex]
            }
        }
    } else if starts_with(p, static_prefix()) || starts_with(p, data_prefix()) {
        set![TargetView::All]
    } else {
        Set::empty()
    }
}

/// The union of the per-path target sets over a change list.
pub open spec fn targets_for_files(files: Seq<Seq<char>>) -> Set<TargetView>
    decreases files.len(),
{
    if files.len() == 0 {
        Set::empty()
    } else {
        targets_for_files(files.drop_last()).union(targets_for_path(files.last()))
    }
}

/// The expander on classification views: `Full` demands everything, an
/// empty `Targeted` demands nothing, and other `Targeted` lists take the
/// union of their per-path target sets.
pub open spec fn spec_expand(c: ClassificationView) -> Set<TargetView> {
    match c {
        ClassificationView::Full => set![TargetView::All],
        ClassificationView::Targeted(files) => targets_for_files(files),
    }
}

/// Full dominance: after a `Full` classification is expanded, the render
/// gate approves every target.
pub proof fn lemma_full_dominance(target: TargetView)
    ensures
        spec_should_render(spec_expand(ClassificationView::Full), target),
{
    assert(set![TargetView::All].contains(TargetView::All));
}

/// Bounds and characterization of `last_slash_end`: nothing at or after it
/// is a slash, and it sits right after one unless it is zero.
proof fn lemma_last_slash_end(p: Seq<char>)
    ensures
        0 <= last_slash_end(p) <= p.len(),
        forall|j: int| last_slash_end(p) <= j < p.len() ==> p[j] != '/',
        last_slash_end(p) > 0 ==> p[last_slash_end(p) - 1] == '/',
    decreases p.len(),
{
    if p.len() == 0 {
    } else if p.last() == '/' {
    } else {
        lemma_last_slash_end(p.drop_last());
        assert(forall|j: int| 0 <= j < p.len() - 1 ==> p.drop_last()[j] == p[j]);
    }
}

/// Bounds and characterization of `first_seg_end`: everything before it is
/// slash-free and it sits on a slash unless it is the length.
proof fn lemma_first_seg_end(s: Seq<char>)
    ensures
        0 <= first_seg_end(s) <= s.len(),
        forall|j: int| 0 <= j < first_seg_end(s) ==> s[j] != '/',
        first_seg_end(s) < s.len() ==> s[first_seg_end(s)] == '/',
    decreases s.len(),
{
    if s.len() == 0 {
    } else if s[0] == '/' {
    } else {
        let rest = s.drop_first();
        lemma_first_seg_end(rest);
        assert forall|j: int| 0 <= j < first_seg_end(s) implies s[j] != '/' by {
            if j > 0 {
                assert(rest[j - 1] == s[j]);
            }
        }
        if first_seg_end(s) < s.len() {
            assert(rest[first_seg_end(rest)] == s[first_seg_end(s)]);
        }
    }
}

/// The bare filename of a path: the characters after the last `/`.
fn file_name_chars(v: &Vec<char>) -> (r: Vec<char>)
    ensures
        r@ == file_name_of(v@),
{
    proof {
        lemma_last_slash_end(v@);
    }
    let n = v.len();
    let mut k: usize = n;
    while k > 0
        invariant
            n == v@.len(),
            k <= n,
            forall|j: int| k <= j < n ==> v@[j] != '/',
        decreases k,
    {
        if v[k - 1] == '/' {
            proof {
                lemma_last_slash_end(v@);
                assert(last_slash_end(v@) >= k) by {
                    if last_slash_end(v@) < k {
                        assert(v@[k - 1] != '/');
                    }
                }
                assert(last_slash_end(v@) <= k) by {
                    if last_slash_end(v@) > k {
                        assert(v@[last_slash_end(v@) - 1] == '/');
                    }
                }
            }
            return crate::dates::tail_chars(v, k);
        }
        k = k - 1;
    }
    proof {
        lemma_last_slash_end(v@);
        assert(last_slash_end(v@) == 0) by {
            if last_slash_end(v@) > 0 {
                assert(v@[last_slash_end(v@) - 1] == '/');
            }
        }
    }
    crate::dates::tail_chars(v, 0)
}

/// The first path segment of `v`: the characters before the first `/`.
fn first_seg_chars(v: &Vec<char>) -> (r: Vec<char>)
    ensures
        r@ == before_first_slash(v@),
{
    proof {
        lemma_first_seg_end(v@);
    }
    let n = v.len();
    let mut k: usize = 0;
    while k < n
        invariant
            n == v@.len(),
            k <= n,
            forall|j: int| 0 <= j < k ==> v@[j] != '/',
        decreases n - k,
    {
        if v[k] == '/' {
            proof {
                lemma_first_seg_end(v@);
                assert(first_seg_end(v@) <= k) by {
                    if first_seg_end(v@) > k {
                        assert(v@[k as int] != '/');
                    }
                }
                assert(first_seg_end(v@) >= k) by {
                    if first_seg_end(v@) < k {
                        assert(v@[first_seg_end(v@)] == '/');
                    }
                }
            }
            return crate::dates::head_chars(v, k);
        }
        k = k + 1;
    }
    proof {
        lemma_first_seg_end(v@);
        assert(first_seg_end(v@) == n) by {
            if first_seg_end(v@) < n {
                assert(v@[first_seg_end(v@)] == '/');
            }
        }
        assert(v@.take(n as int) =~= v@);
    }
    crate::dates::head_chars(v, n)
}

/// Whether the characters hold a `/`.
fn chars_has_slash(v: &Vec<char>) -> (b: bool)
    ensures
        b == has_slash(v@),
{
    let n = v.len();
    let mut i: usize = 0;
    while i < n
        invariant
            n == v@.len(),
            i <= n,
            forall|j: int| 0 <= j < i ==> v@[j] != '/',
        decreases n - i,
    {
        if v[i] == '/' {
            return true;
        }
        i = i + 1;
    }
    false
}

/// Adds the targets that one changed path invalidates.
#[verifier::rlimit(60)]
fn insert_path_targets(ts: &mut TargetSet, path: &String)
    ensures
        final(ts)@ == old(ts)@.union(targets_for_path(path@)),
{
    let ghost orig = ts@;
    let v = chars_vec(path.as_str());
    let posts = chars_vec("content/posts/");
    let content = chars_vec("content/");
    let stat = chars_vec("static/");
    let data = chars_vec("data/");
    if chars_starts_with(&v, &posts) {
        let fname = file_name_chars(&v);
        let fname_str = chars_to_string(&fname);
        let slug = extract_post_slug(fname_str.as_str());
        ts.insert(RenderTarget::Post(slug));
        ts.insert(RenderTarget::Pagination);
        ts.insert(RenderTarget::Feeds);
        ts.insert(RenderTarget::Sitemap);
        ts.insert(RenderTarget::SearchIndex);
        ts.insert(RenderTarget::AllTaxonomies);
        ts.insert(RenderTarget::Page(String::from_str("index")));
        proof {
            assert(ts@ =~= orig.union(targets_for_path(path@)));
        }
    } else if chars_starts_with(&v, &content) {
        let rel = crate::dates::tail_chars(&v, content.len());
        if chars_has_slash(&rel) {
            let seg = first_seg_chars(&rel);
            ts.insert(RenderTarget::Collection(chars_to_string(&seg)));
            ts.insert(RenderTarget::Sitemap);
            ts.insert(RenderTarget::SearchIndex);
            proof {
                assert(ts@ =~= orig.union(targets_for_path(path@)));
            }
        } else {
            let slug = strip_md_chars(&rel);
            let underscore_index = chars_vec("_index");
            if chars_eq(&slug, &underscore_index) {
                ts.insert(RenderTarget::Page(String::from_str("index")));
            } else {
                ts.insert(RenderTarget::Page(chars_to_string(&slug)));
            }
            ts.insert(RenderTarget::Sitemap);
            ts.insert(RenderTarget::SearchIndex);
            proof {
                assert(ts@ =~= orig.union(targets_for_path(path@)));
            }
        }
    } else if chars_starts_with(&v, &stat) || chars_starts_with(&v, &data) {
        ts.insert(RenderTarget::All);
        proof {
            assert(ts@ =~= orig.union(targets_for_path(path@)));
        }
    } else {
        proof {
            assert(targets_for_path(path@) =~= Set::<TargetView>::empty());
            assert(ts@ =~= orig.union(targets_for_path(path@)));
        }
    }
}

/// Expands a classification into the set of render targets that must be
/// rewritten, per `spec_expand`.
pub fn expand_targets(classification: &ChangeClassification) -> (r: TargetSet)
    ensures
        r@ == spec_expand(classification@),
{
    let mut ts = TargetSet::new();
    match classification {
        ChangeClassification::Full => {
            ts.insert(RenderTarget::All);
            proof {
                assert(ts@ =~= set![TargetView::All]);
            }
            ts
        },
        ChangeClassification::Targeted { changed_files } => {
            let ghost files = strs_view(changed_files@);
            let n = changed_files.len();
            let mut i: usize = 0;
            proof {
                assert(files.subrange(0, 0) =~= Seq::<Seq<char>>::empty());
            }
            while i < n
                invariant
                    n == changed_files@.len(),
                    files == strs_view(changed_files@),
                    i <= n,
                    ts@ == targets_for_files(files.subrange(0, i as int)),
                decreases n - i,
            {
                insert_path_targets(&mut ts, &changed_files[i]);
                proof {
                    let next = files.subrange(0, i + 1);
                    assert(next.drop_last() =~= files.subrange(0, i as int));
                    assert(next.last() == files[i as int]);
                    assert(files[i as int] == changed_files@[i as int]@);
                    assert(ts@ == targets_for_files(next));
                }
                i = i + 1;
            }
            proof {
                assert(files.subrange(0, n as int) =~= files);
            }
            ts
        },
    }
}

/// Whether this path, on its own, forces a site-wide rebuild.
fn is_trigger_path(path: &String) -> (b: bool)
    ensures
        b == is_full_trigger_path(path@),
{
    let v = chars_vec(path.as_str());
    let cfg = chars_vec("bamboo.toml");
    let tpl = chars_vec("templates/");
    if chars_eq(&v, &cfg) {
        return true;
    }
    chars_starts_with(&v, &tpl)
}

/// Diffs two snapshots into the rebuild verdict of `spec_classify`.
#[verifier::rlimit(60)]
pub fn classify_changes(old_hashes: &DigestMap, new_hashes: &DigestMap) -> (r:
    ChangeClassification)
    ensures
        r@ == spec_classify(old_hashes@, new_hashes@),
{
    broadcast use group_filter_ensures;

    let ghost oldv = old_hashes@;
    let ghost newv = new_hashes@;
    let mut changed: Vec<String> = Vec::new();
    let mut has_trigger = false;
    let n = new_hashes.len();
    let mut i: usize = 0;
    proof {
        reveal(Seq::filter);
        assert(newv.subrange(0, 0) =~= Seq::<DigestPair>::empty());
        assert(spec_changed_files(oldv, newv.subrange(0, 0)) =~= Seq::<Seq<char>>::empty());
    }
    while i < n
        invariant
            n == newv.len(),
            newv == new_hashes@,
            oldv == old_hashes@,
            i <= n,
            strs_view(changed@) == spec_changed_files(oldv, newv.subrange(0, i as int)),
            has_trigger == exists|j: int| 0 <= j < changed@.len() && is_full_trigger_path(
                changed@[j]@,
            ),
        decreases n - i,
    {
        let ghost prefix = newv.subrange(0, i as int);
        let ghost next = newv.subrange(0, i + 1);
        let path = new_hashes.key_at(i);
        let hash = new_hashes.val_at(i);
        let is_same = match old_hashes.get(path) {
            Some(old_hash) => old_hash.eq(hash),
            None => false,
        };
        proof {
            reveal(Seq::filter);
            assert(next.drop_last() =~= prefix);
            assert(next.last() == newv[i as int]);
        }
        if !is_same {
            let ghost was_trigger = has_trigger;
            let path_trigger = is_trigger_path(path);
            if path_trigger {
                has_trigger = true;
            }
            let ghost prev_changed = changed@;
            changed.push(path.clone());
            proof {
                reveal(Seq::filter);
                assert(!(changed_pred(oldv)(next.last()) == false));
                assert(next.filter(changed_pred(oldv)) == prefix.filter(changed_pred(oldv)).push(
                    newv[i as int],
                ));
                assert(changed@.last()@ == path@);
                assert(strs_view(changed@) =~= strs_view(prev_changed).push(path@));
                assert(next.filter(changed_pred(oldv)).map_values(|p: DigestPair| p.0)
                    =~= prefix.filter(changed_pred(oldv)).map_values(|p: DigestPair| p.0).push(
                    newv[i as int].0,
                ));
                assert(strs_view(changed@) =~= spec_changed_files(oldv, next));
                assert forall|j: int|
                    0 <= j < changed@.len() && is_full_trigger_path(
                        changed@[j]@,
                    ) implies has_trigger by {
                    if j < prev_changed.len() {
                        assert(changed@[j]@ == prev_changed[j]@);
                        assert(was_trigger);
                    } else {
                        assert(changed@[j]@ == path@);
                        assert(path_trigger);
                    }
                }
                if has_trigger {
                    if was_trigger {
                        let j = choose|j: int|
                            0 <= j < prev_changed.len() && is_full_trigger_path(prev_changed[j]@);
                        assert(changed@[j]@ == prev_changed[j]@);
                        assert(is_full_trigger_path(changed@[j]@));
                    } else {
                        assert(is_full_trigger_path(path@));
                        assert(changed@[prev_changed.len() as int]@ == path@);
                    }
                }
            }
        } else {
            proof {
                reveal(Seq::filter);
                assert(changed_pred(oldv)(next.last()) == false);
                assert(next.filter(changed_pred(oldv)) == prefix.filter(changed_pred(oldv)));
                assert(strs_view(changed@) =~= spec_changed_files(oldv, next));
            }
        }
        i = i + 1;
    }
    proof {
        assert(newv.subrange(0, n as int) =~= newv);
        assert(spec_changed_files(oldv, newv) == strs_view(changed@));
    }
    let mut has_deletions = false;
    let m = old_hashes.len();
    let mut k: usize = 0;
    while k < m
        invariant
            m == oldv.len(),
            oldv == old_hashes@,
            newv == new_hashes@,
            k <= m,
            has_deletions == exists|j: int| 0 <= j < k && lookup(newv, oldv[j].0) is None,
        decreases m - k,
    {
        if !has_deletions {
            let old_path = old_hashes.key_at(k);
            if !new_hashes.contains_key(old_path) {
                has_deletions = true;
                assert(lookup(newv, oldv[k as int].0) is None);
            }
        }
        k = k + 1;
    }
    proof {
        let ghost cf = spec_changed_files(oldv, newv);
        assert(cf == strs_view(changed@));
        assert(cf.len() == changed@.len());
        assert forall|j: int| 0 <= j < changed@.len() implies cf[j] == changed@[j]@ by {}
        if has_trigger {
            let j = choose|j: int|
                0 <= j < changed@.len() && is_full_trigger_path(changed@[j]@);
            assert(is_full_trigger_path(cf[j]));
        }
        if exists|j: int| 0 <= j < cf.len() && is_full_trigger_path(cf[j]) {
            let j = choose|j: int| 0 <= j < cf.len() && is_full_trigger_path(cf[j]);
            assert(is_full_trigger_path(changed@[j]@));
            assert(has_trigger);
        }
        assert(has_trigger == exists|j: int| 0 <= j < cf.len() && is_full_trigger_path(cf[j]));
        assert(has_deletions == spec_has_deletions(oldv, newv));
    }
    if changed.len() == 0 && !has_deletions {
        let r = ChangeClassification::Targeted { changed_files: Vec::new() };
        proof {
            assert(strs_view(changed@).len() == 0);
            assert(strs_view(Seq::<String>::empty()) =~= Seq::<Seq<char>>::empty());
        }
        return r;
    }
    if has_trigger || has_deletions {
        return ChangeClassification::Full;
    }
    ChangeClassification::Targeted { changed_files: changed }
}

} // verus!
