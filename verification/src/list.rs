//! The list: building one value by value, and taking one apart.

use crate::error::Error;
use crate::tag::Tag;
use crate::tree::Tree;
use crate::value::{copy_compound, copy_list, copy_value, list_items, Compound, List, Value};
use vstd::prelude::*;

verus! {

/// The trees of a run of values.
pub open spec fn trees_of(values: Seq<Value>) -> Seq<Tree> {
    Seq::new(values.len(), |i: int| values[i]@)
}

/// The list that a tree is after one more element: a list takes a tree of
/// the tag of its elements, and the list without a kind takes any tree.
pub open spec fn pushed(list: Tree, tree: Tree) -> Result<Tree, Error> {
    match list {
        Tree::List(of, items) => if of == Tag::End || of == tree.tag() {
            Ok(Tree::List(tree.tag(), items.push(tree)))
        } else {
            Err(Error::TypeMismatch { expected: of, found: tree.tag() })
        },
        _ => Err(Error::TypeMismatch { expected: Tag::List, found: list.tag() }),
    }
}

/// The list that the first `n` trees make when they are pushed one by one
/// into the list without a kind, or the error of the first that is refused.
pub open spec fn gathered(trees: Seq<Tree>, n: nat) -> Result<Tree, Error>
    decreases n,
{
    if n == 0 || n > trees.len() {
        Ok(Tree::List(Tag::End, Seq::empty()))
    } else {
        match gathered(trees, (n - 1) as nat) {
            Err(e) => Err(e),
            Ok(list) => pushed(list, trees[n - 1]),
        }
    }
}

/// An error among the first `k` trees is the error of any longer run.
pub proof fn lemma_gathered_stays(trees: Seq<Tree>, k: nat, n: nat)
    requires
        k <= n <= trees.len(),
        gathered(trees, k) is Err,
    ensures
        gathered(trees, n) == gathered(trees, k),
    decreases n - k,
{
    if k < n {
        lemma_gathered_stays(trees, k, (n - 1) as nat);
    }
}

/// Trees of one tag make the list of that tag which holds them, in their
/// order.
pub proof fn lemma_gathered_one_kind(trees: Seq<Tree>, n: nat)
    requires
        0 < n <= trees.len(),
        forall|i: int| 0 <= i < n ==> (#[trigger] trees[i]).tag() == trees[0].tag(),
    ensures
        gathered(trees, n) == Ok::<Tree, Error>(Tree::List(trees[0].tag(), trees.take(n as int))),
    decreases n,
{
    if n > 1 {
        lemma_gathered_one_kind(trees, (n - 1) as nat);
        assert(trees[n - 1].tag() == trees[0].tag());
        assert(trees.take(n - 1).push(trees[n - 1]) =~= trees.take(n as int));
    } else {
        assert(gathered(trees, 0) == Ok::<Tree, Error>(Tree::List(Tag::End, Seq::empty())));
        assert(Seq::<Tree>::empty().push(trees[0]) =~= trees.take(1));
    }
}

/// A tree of another tag than the trees before it is refused, and the error
/// names the tag of those before and its own.
pub proof fn lemma_gathered_stranger(trees: Seq<Tree>, j: nat, n: nat)
    requires
        0 < j < n <= trees.len(),
        forall|i: int| 0 <= i < j ==> (#[trigger] trees[i]).tag() == trees[0].tag(),
        trees[j as int].tag() != trees[0].tag(),
    ensures
        gathered(trees, n) == Err::<Tree, Error>(
            (Error::TypeMismatch { expected: trees[0].tag(), found: trees[j as int].tag() }),
        ),
    decreases n,
{
    if n == j + 1 {
        lemma_gathered_one_kind(trees, j);
    } else {
        lemma_gathered_stranger(trees, j, (n - 1) as nat);
    }
}

/// Where the trees make a list, it holds as many elements as there are trees.
pub proof fn lemma_gathered_shape(trees: Seq<Tree>, n: nat)
    requires
        n <= trees.len(),
    ensures
        gathered(trees, n) matches Ok(list) ==> (list matches Tree::List(_, items) && items.len()
            == n),
    decreases n,
{
    if n > 0 {
        lemma_gathered_shape(trees, (n - 1) as nat);
    }
}

impl List {
    /// The list without elements and without a kind.
    pub fn new() -> (l: List)
        ensures
            l@ == Tree::List(Tag::End, Seq::empty()),
    {
        List::End
    }

    /// Adds a value at the end. A list takes values of the kind of its
    /// elements only; the list without a kind takes any value and has that
    /// kind from then on. A value of another kind is refused and the list
    /// stays as it was.
    pub fn push(&mut self, value: Value) -> (r: Result<(), Error>)
        ensures
            match pushed(old(self)@, value@) {
                Ok(after) => r is Ok && final(self)@ == after,
                Err(e) => r == Err::<(), Error>(e) && final(self)@ == old(self)@,
            },
    {
        if let List::End = self {
            *self = match value {
                Value::Byte(x) => {
                    let ghost tree = Tree::Byte(x);
                    let mut v = Vec::new();
                    v.push(x);
                    assert(list_items(List::Byte(v)) =~= Seq::<Tree>::empty().push(tree));
                    List::Byte(v)
                },
                Value::Short(x) => {
                    let ghost tree = Tree::Short(x);
                    let mut v = Vec::new();
                    v.push(x);
                    assert(list_items(List::Short(v)) =~= Seq::<Tree>::empty().push(tree));
                    List::Short(v)
                },
                Value::Int(x) => {
                    let ghost tree = Tree::Int(x);
                    let mut v = Vec::new();
                    v.push(x);
                    assert(list_items(List::Int(v)) =~= Seq::<Tree>::empty().push(tree));
                    List::Int(v)
                },
                Value::Long(x) => {
                    let ghost tree = Tree::Long(x);
                    let mut v = Vec::new();
                    v.push(x);
                    assert(list_items(List::Long(v)) =~= Seq::<Tree>::empty().push(tree));
                    List::Long(v)
                },
                Value::Float(x) => {
                    let ghost tree = Tree::Float(x);
                    let mut v = Vec::new();
                    v.push(x);
                    assert(list_items(List::Float(v)) =~= Seq::<Tree>::empty().push(tree));
                    List::Float(v)
                },
                Value::Double(x) => {
                    let ghost tree = Tree::Double(x);
                    let mut v = Vec::new();
                    v.push(x);
                    assert(list_items(List::Double(v)) =~= Seq::<Tree>::empty().push(tree));
                    List::Double(v)
                },
                Value::ByteArray(x) => {
                    let ghost tree = Tree::ByteArray(x@);
                    let mut v = Vec::new();
                    v.push(x);
                    assert(list_items(List::ByteArray(v)) =~= Seq::<Tree>::empty().push(tree));
                    List::ByteArray(v)
                },
                Value::String(x) => {
                    let ghost tree = Tree::String(x@);
                    let mut v = Vec::new();
                    v.push(x);
                    assert(list_items(List::String(v)) =~= Seq::<Tree>::empty().push(tree));
                    List::String(v)
                },
                Value::List(x) => {
                    let ghost tree = x@;
                    let mut v = Vec::new();
                    v.push(x);
                    assert(list_items(List::List(v)) =~= Seq::<Tree>::empty().push(tree));
                    List::List(v)
                },
                Value::Compound(x) => {
                    let ghost tree = Tree::Compound(x@);
                    let mut v = Vec::new();
                    v.push(x);
                    assert(list_items(List::Compound(v)) =~= Seq::<Tree>::empty().push(tree));
                    List::Compound(v)
                },
                Value::IntArray(x) => {
                    let ghost tree = Tree::IntArray(x@);
                    let mut v = Vec::new();
                    v.push(x);
                    assert(list_items(List::IntArray(v)) =~= Seq::<Tree>::empty().push(tree));
                    List::IntArray(v)
                },
                Value::LongArray(x) => {
                    let ghost tree = Tree::LongArray(x@);
                    let mut v = Vec::new();
                    v.push(x);
                    assert(list_items(List::LongArray(v)) =~= Seq::<Tree>::empty().push(tree));
                    List::LongArray(v)
                },
            };
            return Ok(());
        }
        let of = self.element_tag();
        let found = value.tag();
        match (self, value) {
            (List::Byte(v), Value::Byte(x)) => {
                let ghost before = list_items(List::Byte(*v));
                let ghost tree = Tree::Byte(x);
                v.push(x);
                assert(list_items(List::Byte(*v)) =~= before.push(tree));
                Ok(())
            },
            (List::Short(v), Value::Short(x)) => {
                let ghost before = list_items(List::Short(*v));
                let ghost tree = Tree::Short(x);
                v.push(x);
                assert(list_items(List::Short(*v)) =~= before.push(tree));
                Ok(())
            },
            (List::Int(v), Value::Int(x)) => {
                let ghost before = list_items(List::Int(*v));
                let ghost tree = Tree::Int(x);
                v.push(x);
                assert(list_items(List::Int(*v)) =~= before.push(tree));
                Ok(())
            },
            (List::Long(v), Value::Long(x)) => {
                let ghost before = list_items(List::Long(*v));
                let ghost tree = Tree::Long(x);
                v.push(x);
                assert(list_items(List::Long(*v)) =~= before.push(tree));
                Ok(())
            },
            (List::Float(v), Value::Float(x)) => {
                let ghost before = list_items(List::Float(*v));
                let ghost tree = Tree::Float(x);
                v.push(x);
                assert(list_items(List::Float(*v)) =~= before.push(tree));
                Ok(())
            },
            (List::Double(v), Value::Double(x)) => {
                let ghost before = list_items(List::Double(*v));
                let ghost tree = Tree::Double(x);
                v.push(x);
                assert(list_items(List::Double(*v)) =~= before.push(tree));
                Ok(())
            },
            (List::ByteArray(v), Value::ByteArray(x)) => {
                let ghost before = list_items(List::ByteArray(*v));
                let ghost tree = Tree::ByteArray(x@);
                v.push(x);
                assert(list_items(List::ByteArray(*v)) =~= before.push(tree));
                Ok(())
            },
            (List::String(v), Value::String(x)) => {
                let ghost before = list_items(List::String(*v));
                let ghost tree = Tree::String(x@);
                v.push(x);
                assert(list_items(List::String(*v)) =~= before.push(tree));
                Ok(())
            },
            (List::List(v), Value::List(x)) => {
                let ghost before = list_items(List::List(*v));
                let ghost tree = x@;
                v.push(x);
                assert(list_items(List::List(*v)) =~= before.push(tree));
                Ok(())
            },
            (List::Compound(v), Value::Compound(x)) => {
                let ghost before = list_items(List::Compound(*v));
                let ghost tree = Tree::Compound(x@);
                v.push(x);
                assert(list_items(List::Compound(*v)) =~= before.push(tree));
                Ok(())
            },
            (List::IntArray(v), Value::IntArray(x)) => {
                let ghost before = list_items(List::IntArray(*v));
                let ghost tree = Tree::IntArray(x@);
                v.push(x);
                assert(list_items(List::IntArray(*v)) =~= before.push(tree));
                Ok(())
            },
            (List::LongArray(v), Value::LongArray(x)) => {
                let ghost before = list_items(List::LongArray(*v));
                let ghost tree = Tree::LongArray(x@);
                v.push(x);
                assert(list_items(List::LongArray(*v)) =~= before.push(tree));
                Ok(())
            },
            _ => Err(Error::TypeMismatch { expected: of, found }),
        }
    }

    /// The element at a position, if the list has that many.
    pub fn get(&self, i: usize) -> (r: Option<Value>)
        ensures
            match r {
                Some(v) => i < list_items(*self).len() && v@ == list_items(*self)[i as int],
                None => i >= list_items(*self).len(),
            },
    {
        match self {
            List::End => None,
            List::Byte(v) => if i < v.len() {
                Some(Value::Byte(v[i]))
            } else {
                None
            },
            List::Short(v) => if i < v.len() {
                Some(Value::Short(v[i]))
            } else {
                None
            },
            List::Int(v) => if i < v.len() {
                Some(Value::Int(v[i]))
            } else {
                None
            },
            List::Long(v) => if i < v.len() {
                Some(Value::Long(v[i]))
            } else {
                None
            },
            List::Float(v) => if i < v.len() {
                Some(Value::Float(v[i]))
            } else {
                None
            },
            List::Double(v) => if i < v.len() {
                Some(Value::Double(v[i]))
            } else {
                None
            },
            List::ByteArray(v) => if i < v.len() {
                Some(Value::ByteArray(vstd::slice::slice_to_vec(v[i].as_slice())))
            } else {
                None
            },
            List::String(v) => if i < v.len() {
                Some(Value::String(v[i].clone()))
            } else {
                None
            },
            List::List(v) => if i < v.len() {
                Some(Value::List(copy_list(&v[i])))
            } else {
                None
            },
            List::Compound(v) => if i < v.len() {
                Some(Value::Compound(copy_compound(&v[i])))
            } else {
                None
            },
            List::IntArray(v) => if i < v.len() {
                Some(Value::IntArray(vstd::slice::slice_to_vec(v[i].as_slice())))
            } else {
                None
            },
            List::LongArray(v) => if i < v.len() {
                Some(Value::LongArray(vstd::slice::slice_to_vec(v[i].as_slice())))
            } else {
                None
            },
        }
    }

    /// The list of a run of values: each is pushed in its turn. All of them
    /// must be of the kind of the first; no values give the list without a
    /// kind.
    pub fn from_values(values: &Vec<Value>) -> (r: Result<List, Error>)
        ensures
            match gathered(trees_of(values@), values@.len()) {
                Ok(tree) => r matches Ok(l) && l@ == tree,
                Err(e) => r matches Err(x) && x == e,
            },
    {
        let ghost trees = trees_of(values@);
        let mut list = List::End;
        let mut i: usize = 0;
        while i < values.len()
            invariant
                i <= values.len(),
                trees == trees_of(values@),
                gathered(trees, i as nat) == Ok::<Tree, Error>(list@),
            decreases values.len() - i,
        {
            let value = copy_value(&values[i]);
            assert(value@ == trees[i as int]);
            match list.push(value) {
                Err(e) => {
                    proof {
                        lemma_gathered_stays(trees, (i + 1) as nat, values@.len());
                    }
                    return Err(e);
                },
                Ok(()) => {},
            }
            i += 1;
        }
        Ok(list)
    }

    /// The elements as values, in their order.
    pub fn to_values(&self) -> (r: Vec<Value>)
        ensures
            trees_of(r@) == list_items(*self),
    {
        let n = self.len();
        let mut out: Vec<Value> = Vec::new();
        let mut i: usize = 0;
        while i < n
            invariant
                i <= n,
                n == list_items(*self).len(),
                out@.len() == i,
                forall|k: int| 0 <= k < i ==> (#[trigger] out@[k])@ == list_items(*self)[k],
            decreases n - i,
        {
            match self.get(i) {
                Some(v) => {
                    out.push(v);
                },
                None => {},
            }
            i += 1;
        }
        assert(trees_of(out@) =~= list_items(*self));
        out
    }
}

} // verus!
