//! Render targets: the semantic units of output that a change can
//! invalidate, and the set of them handed to the renderer.

use vstd::prelude::*;

verus! {

/// A semantic unit of output that may need regeneration.
#[derive(Debug, Clone)]
pub enum RenderTarget {
    Page(String),
    Post(String),
    Collection(String),
    Pagination,
    AllTaxonomies,
    Feeds,
    Sitemap,
    SearchIndex,
    All,
}

/// A render target as the specifications see it.
pub enum TargetView {
    Page(Seq<char>),
    Post(Seq<char>),
    Collection(Seq<char>),
    Pagination,
    AllTaxonomies,
    Feeds,
    Sitemap,
    SearchIndex,
    All,
}

impl View for RenderTarget {
    type V = TargetView;

    open spec fn view(&self) -> TargetView {
        match self {
            RenderTarget::Page(s) => TargetView::Page(s@),
            RenderTarget::Post(s) => TargetView::Post(s@),
            RenderTarget::Collection(s) => TargetView::Collection(s@),
            RenderTarget::Pagination => TargetView::Pagination,
            RenderTarget::AllTaxonomies => TargetView::AllTaxonomies,
            RenderTarget::Feeds => TargetView::Feeds,
            RenderTarget::Sitemap => TargetView::Sitemap,
            RenderTarget::SearchIndex => TargetView::SearchIndex,
            RenderTarget::All => TargetView::All,
        }
    }
}

impl PartialEq for RenderTarget {
    fn eq(&self, other: &Self) -> (r: bool) {
        match (self, other) {
            (RenderTarget::Page(a), RenderTarget::Page(b)) => a.eq(b),
            (RenderTarget::Post(a), RenderTarget::Post(b)) => a.eq(b),
            (RenderTarget::Collection(a), RenderTarget::Collection(b)) => a.eq(b),
            (RenderTarget::Pagination, RenderTarget::Pagination) => true,
            (RenderTarget::AllTaxonomies, RenderTarget::AllTaxonomies) => true,
            (RenderTarget::Feeds, RenderTarget::Feeds) => true,
            (RenderTarget::Sitemap, RenderTarget::Sitemap) => true,
            (RenderTarget::SearchIndex, RenderTarget::SearchIndex) => true,
            (RenderTarget::All, RenderTarget::All) => true,
            _ => false,
        }
    }
}

impl vstd::std_specs::cmp::PartialEqSpecImpl for RenderTarget {
    open spec fn obeys_eq_spec() -> bool {
        true
    }

    open spec fn eq_spec(&self, other: &Self) -> bool {
        self@ == other@
    }
}

/// The invalidation set for one rebuild: a set of render targets.
///
/// An empty set means "no rebuild necessary" and is distinct from the set
/// holding `All`.
#[derive(Debug, Clone)]
pub struct TargetSet {
    items: Vec<RenderTarget>,
}

impl View for TargetSet {
    type V = Set<TargetView>;

    closed spec fn view(&self) -> Set<TargetView> {
        Set::new(|tv: TargetView| exists|i: int| 0 <= i < self.items@.len() && self.items@[i]@ == tv)
    }
}

impl TargetSet {
    /// The empty target set.
    pub fn new() -> (r: TargetSet)
        ensures
            r@ == Set::<TargetView>::empty(),
    {
        let r = TargetSet { items: Vec::new() };
        assert(r@ =~= Set::<TargetView>::empty());
        r
    }

    /// Whether the set holds this target literally (no `All` shortcut).
    pub fn contains(&self, t: &RenderTarget) -> (b: bool)
        ensures
            b == self@.contains(t@),
    {
        let n = self.items.len();
        let mut i: usize = 0;
        while i < n
            invariant
                n == self.items@.len(),
                i <= n,
                forall|j: int| 0 <= j < i ==> self.items@[j]@ != t@,
            decreases n - i,
        {
            if self.items[i].eq(t) {
                assert(self@.contains(t@));
                return true;
            }
            i = i + 1;
        }
        assert(!self@.contains(t@));
        false
    }

    /// Whether no target is present.
    pub fn is_empty(&self) -> (b: bool)
        ensures
            b == (self@ == Set::<TargetView>::empty()),
    {
        if self.items.len() == 0 {
            assert(self@ =~= Set::<TargetView>::empty());
            true
        } else {
            assert(self@.contains(self.items@[0]@));
            assert(self@ != Set::<TargetView>::empty());
            false
        }
    }

    /// Adds a target; the set view grows by its abstraction.
    pub fn insert(&mut self, t: RenderTarget)
        ensures
            final(self)@ == old(self)@.insert(t@),
    {
        if self.contains(&t) {
            assert(self@ =~= old(self)@.insert(t@));
        } else {
            let ghost orig = self.items@;
            self.items.push(t);
            proof {
                assert forall|tv: TargetView| self@.contains(tv) implies old(self)@.insert(
                    t@,
                ).contains(tv) by {
                    let i = choose|i: int|
                        0 <= i < self.items@.len() && self.items@[i]@ == tv;
                    if i < orig.len() {
                        assert(orig[i]@ == tv);
                    }
                }
                assert forall|tv: TargetView| old(self)@.insert(t@).contains(tv) implies
                    self@.contains(tv) by {
                    if tv == t@ {
                        assert(self.items@[orig.len() as int]@ == tv);
                    } else {
                        let i = choose|i: int| 0 <= i < orig.len() && orig[i]@ == tv;
                        assert(self.items@[i]@ == tv);
                    }
                }
                assert(self@ =~= old(self)@.insert(t@));
            }
        }
    }
}

/// The render gate's rule: a target must be (re)written when the set holds
/// `All` or the target itself.
pub open spec fn spec_should_render(targets: Set<TargetView>, target: TargetView) -> bool {
    targets.contains(TargetView::All) || targets.contains(target)
}

/// Whether the renderer must (re)write `target`: true when the set holds
/// `All` or the target itself.
pub fn should_render(targets: &TargetSet, target: &RenderTarget) -> (b: bool)
    ensures
        b == spec_should_render(targets@, target@),
{
    if targets.contains(&RenderTarget::All) {
        return true;
    }
    targets.contains(target)
}

/// Whether any post is implicated (or everything is).
pub fn should_render_any_post(targets: &TargetSet) -> (b: bool)
    ensures
        b == (targets@.contains(TargetView::All) || exists|s: Seq<char>|
            targets@.contains(TargetView::Post(s))),
{
    if targets.contains(&RenderTarget::All) {
        return true;
    }
    targets.any_of_kind(1)
}

/// Whether any standalone page is implicated (or everything is).
pub fn should_render_any_page(targets: &TargetSet) -> (b: bool)
    ensures
        b == (targets@.contains(TargetView::All) || exists|s: Seq<char>|
            targets@.contains(TargetView::Page(s))),
{
    if targets.contains(&RenderTarget::All) {
        return true;
    }
    targets.any_of_kind(0)
}

/// Whether any collection is implicated (or everything is).
pub fn should_render_any_collection(targets: &TargetSet) -> (b: bool)
    ensures
        b == (targets@.contains(TargetView::All) || exists|s: Seq<char>|
            targets@.contains(TargetView::Collection(s))),
{
    if targets.contains(&RenderTarget::All) {
        return true;
    }
    targets.any_of_kind(2)
}

impl TargetSet {
    /// Scans for a slug-carrying variant: 0 for pages, 1 for posts, 2 for
    /// collections.
    fn any_of_kind(&self, kind: u8) -> (b: bool)
        requires
            kind == 0 || kind == 1 || kind == 2,
        ensures
            kind == 0 ==> b == exists|s: Seq<char>| self@.contains(TargetView::Page(s)),
            kind == 1 ==> b == exists|s: Seq<char>| self@.contains(TargetView::Post(s)),
            kind == 2 ==> b == exists|s: Seq<char>| self@.contains(TargetView::Collection(s)),
    {
        let n = self.items.len();
        let mut i: usize = 0;
        while i < n
            invariant
                n == self.items@.len(),
                kind == 0 || kind == 1 || kind == 2,
                i <= n,
                forall|j: int| 0 <= j < i ==> !(kind == 0 && self.items@[j]@ is Page) && !(kind
                    == 1 && self.items@[j]@ is Post) && !(kind == 2 && self.items@[j]@
                    is Collection),
            decreases n - i,
        {
            let hit = match (&self.items[i], kind) {
                (RenderTarget::Page(_), 0) => true,
                (RenderTarget::Post(_), 1) => true,
                (RenderTarget::Collection(_), 2) => true,
                _ => false,
            };
            if hit {
                assert(self@.contains(self.items@[i as int]@));
                return true;
            }
            i = i + 1;
        }
        proof {
            if kind == 0 {
                assert forall|s: Seq<char>| !self@.contains(TargetView::Page(s)) by {
                    if self@.contains(TargetView::Page(s)) {
                        let i = choose|i: int|
                            0 <= i < self.items@.len() && self.items@[i]@ == TargetView::Page(s);
                        assert(self.items@[i]@ is Page);
                    }
                }
            } else if kind == 1 {
                assert forall|s: Seq<char>| !self@.contains(TargetView::Post(s)) by {
                    if self@.contains(TargetView::Post(s)) {
                        let i = choose|i: int|
                            0 <= i < self.items@.len() && self.items@[i]@ == TargetView::Post(s);
                        assert(self.items@[i]@ is Post);
                    }
                }
            } else {
                assert forall|s: Seq<char>| !self@.contains(TargetView::Collection(s)) by {
                    if self@.contains(TargetView::Collection(s)) {
                        let i = choose|i: int|
                            0 <= i < self.items@.len() && self.items@[i]@ == TargetView::Collection(
                                s,
                            );
                        assert(self.items@[i]@ is Collection);
                    }
                }
            }
        }
        false
    }
}

} // verus!
