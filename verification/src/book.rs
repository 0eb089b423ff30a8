//! The document tree: a recursively nested collection of document units.
//!
//! The host owns the real tree and its serialization; the transformation
//! receives it as this value, rewrites every unit's body, and hands it back
//! structurally unchanged. Units are independent: numbering resets at the
//! start of every unit, and no state flows between them.
use crate::Footnote;
use crate::render::spec_transform;
use crate::render::transform;
use vstd::prelude::*;

verus! {

/// One item of the document tree: a document unit, or a boundary item (the
/// host's separators, part titles and the like), which the transformation
/// leaves alone.
pub enum DocItem {
    Unit(DocUnit),
    Boundary,
}

/// One document unit: a text body to scan, plus nested sub-units.
pub struct DocUnit {
    pub body: String,
    pub children: Vec<DocItem>,
}

/// The whole document tree.
pub struct DocTree {
    pub items: Vec<DocItem>,
}

/// `b` is `a` after one transformation pass: the same shape, every unit's
/// body rewritten for the chosen style, boundary items untouched.
pub open spec fn item_rewritten(a: DocItem, b: DocItem, md: bool) -> bool
    decreases a,
{
    match (a, b) {
        (DocItem::Unit(ua), DocItem::Unit(ub)) => {
            &&& ub.body@ == spec_transform(ua.body@, md)
            &&& ua.children@.len() == ub.children@.len()
            &&& forall|i: int|
                0 <= i < ua.children@.len() ==> item_rewritten(
                    ua.children@[i],
                    ub.children@[i],
                    md,
                )
        },
        (DocItem::Boundary, DocItem::Boundary) => true,
        _ => false,
    }
}

/// `ys` is `xs` after one transformation pass, item by item.
pub open spec fn items_rewritten(xs: Seq<DocItem>, ys: Seq<DocItem>, md: bool) -> bool {
    &&& xs.len() == ys.len()
    &&& forall|i: int| 0 <= i < xs.len() ==> item_rewritten(xs[i], ys[i], md)
}

/// `b` is `a` after one transformation pass over the whole tree.
pub open spec fn tree_rewritten(a: DocTree, b: DocTree, md: bool) -> bool {
    items_rewritten(a.items@, b.items@, md)
}

/// Transforms one item: a unit's body is rewritten and its sub-units are
/// visited in turn; a boundary item passes through.
#[verifier::loop_isolation(false)]
fn transform_item(it: DocItem, md: bool) -> (r: DocItem)
    ensures
        item_rewritten(it, r, md),
    decreases it,
{
    broadcast use vstd::std_specs::vec::group_vec_axioms;

    let ghost git = it;
    match it {
        DocItem::Boundary => DocItem::Boundary,
        DocItem::Unit(u) => {
            let ghost gu = u;
            let DocUnit { body, children } = u;
            let new_body = transform(body.as_str(), md);
            let mut src = children;
            let ghost orig = src@;
            let mut dst: Vec<DocItem> = Vec::new();
            while src.len() > 0
                invariant
                    dst@.len() + src@.len() == orig.len(),
                    src@ == orig.skip(dst@.len() as int),
                    forall|j: int| 0 <= j < dst@.len() ==> item_rewritten(orig[j], dst@[j], md),
                    orig == gu.children@,
                    git == DocItem::Unit(gu),
                decreases src@.len(),
            {
                let ghost k = dst@.len() as int;
                let child = src.remove(0);
                proof {
                    assert(child == orig[k]);
                    assert(decreases_to!(git => git->Unit_0));
                    assert(decreases_to!(gu => gu.children));
                    assert(decreases_to!(gu.children => gu.children@));
                    assert(decreases_to!(gu.children@ => gu.children@[k]));
                    assert(decreases_to!(git => child));
                }
                let t = transform_item(child, md);
                dst.push(t);
                proof {
                    assert(src@ =~= orig.skip(k + 1));
                }
            }
            DocItem::Unit(DocUnit { body: new_body, children: dst })
        },
    }
}

impl Footnote {
    /// One transformation pass over the whole document tree: every unit's
    /// body is rewritten in place of the old one, in whatever order the
    /// units stand; nothing else about the tree changes.
    pub fn run(&self, book: DocTree) -> (out: DocTree)
        ensures
            tree_rewritten(book, out, self.md_footnotes),
    {
        let DocTree { items } = book;
        let mut src = items;
        let ghost orig = src@;
        let mut dst: Vec<DocItem> = Vec::new();
        while src.len() > 0
            invariant
                dst@.len() + src@.len() == orig.len(),
                src@ == orig.skip(dst@.len() as int),
                forall|j: int|
                    0 <= j < dst@.len() ==> item_rewritten(orig[j], dst@[j], self.md_footnotes),
            decreases src@.len(),
        {
            let ghost k = dst@.len() as int;
            let child = src.remove(0);
            proof {
                assert(child == orig[k]);
            }
            let t = transform_item(child, self.md_footnotes);
            dst.push(t);
            proof {
                assert(src@ =~= orig.skip(k + 1));
            }
        }
        DocTree { items: dst }
    }
}

} // verus!
