//! Rows of a query result.
use vstd::prelude::*;

verus! {

/// A typed attribute value of a row.
#[derive(Debug, Clone, PartialEq)]
pub enum Value {
    /// Signed 64-bit integer.
    Int(i64),
    /// Double-precision number, held as its IEEE-754 binary64 bit pattern.
    Float(u64),
    /// String value.
    String(String),
    /// Boolean value.
    Boolean(bool),
    /// Null value.
    Null,
}

/// Attribute logical name.
pub type Attribute = String;

/// The position of the attribute named `k` in `a`: the last pair with that name.
pub open spec fn key_pos(a: Seq<(Seq<char>, Value)>, k: Seq<char>) -> Option<int>
    decreases a.len(),
{
    if a.len() == 0 {
        None
    } else if a.last().0 == k {
        Some(a.len() - 1)
    } else {
        key_pos(a.drop_last(), k)
    }
}

/// The value of attribute `k` in `a`.
pub open spec fn get_attr(a: Seq<(Seq<char>, Value)>, k: Seq<char>) -> Option<Value> {
    match key_pos(a, k) {
        Some(i) => Some(a[i].1),
        None => None,
    }
}

/// `a` with attribute `k` set to `v`: the existing pair is replaced in place,
/// or the pair is appended.
pub open spec fn put_attr(a: Seq<(Seq<char>, Value)>, k: Seq<char>, v: Value) -> Seq<
    (Seq<char>, Value),
> {
    match key_pos(a, k) {
        Some(i) => a.update(i, (k, v)),
        None => a.push((k, v)),
    }
}

/// No two pairs of `a` share a name.
pub open spec fn keys_unique(a: Seq<(Seq<char>, Value)>) -> bool {
    forall|i: int, j: int| 0 <= i < j < a.len() ==> a[i].0 != a[j].0
}

proof fn lemma_key_pos(a: Seq<(Seq<char>, Value)>, k: Seq<char>)
    ensures
        match key_pos(a, k) {
            Some(i) => 0 <= i < a.len() && a[i].0 == k && forall|j: int|
                i < j < a.len() ==> a[j].0 != k,
            None => forall|j: int| 0 <= j < a.len() ==> a[j].0 != k,
        },
    decreases a.len(),
{
    if a.len() > 0 && a.last().0 != k {
        lemma_key_pos(a.drop_last(), k);
        assert forall|j: int| 0 <= j < a.len() - 1 implies a[j] == a.drop_last()[j] by {}
    }
}

/// Setting an attribute keeps the names unique.
pub proof fn lemma_put_keeps_unique(a: Seq<(Seq<char>, Value)>, k: Seq<char>, v: Value)
    requires
        keys_unique(a),
    ensures
        keys_unique(put_attr(a, k, v)),
        get_attr(put_attr(a, k, v), k) == Some(v),
{
    lemma_key_pos(a, k);
    let b = put_attr(a, k, v);
    lemma_key_pos(b, k);
    match key_pos(a, k) {
        Some(i) => {
            assert forall|p: int, q: int| 0 <= p < q < b.len() implies b[p].0 != b[q].0 by {
                if p == i {
                    assert(a[p].0 == k);
                } else if q == i {
                    assert(a[q].0 == k);
                }
            }
            if key_pos(b, k) != Some(i) {
                assert(b[i].0 == k);
            }
        },
        None => {
            assert forall|p: int, q: int| 0 <= p < q < b.len() implies b[p].0 != b[q].0 by {
                if q == a.len() {
                    assert(a[p].0 != k);
                }
            }
            assert(b.drop_last() =~= a);
        },
    }
}

/// After setting attribute `k` to `v`, `k` has the value `v`.
pub proof fn lemma_put_get(a: Seq<(Seq<char>, Value)>, k: Seq<char>, v: Value)
    ensures
        get_attr(put_attr(a, k, v), k) == Some(v),
{
    lemma_key_pos(a, k);
    let b = put_attr(a, k, v);
    lemma_key_pos(b, k);
    match key_pos(a, k) {
        Some(i) => {
            match key_pos(b, k) {
                Some(j) => {
                    if j != i {
                        if j < i {
                            assert(b[i].0 == k);
                        } else {
                            assert(a[j].0 != k);
                        }
                    }
                },
                None => {
                    assert(b[i].0 == k);
                },
            }
        },
        None => {
            assert(b.drop_last() =~= a);
        },
    }
}

/// A row: attribute values by logical name.
#[derive(Debug)]
pub struct Entity {
    /// Attribute name and value pairs.
    pub attributes: Vec<(Attribute, Value)>,
}

impl Entity {
    /// The row's attributes, each name by its characters.
    pub open spec fn attrs(&self) -> Seq<(Seq<char>, Value)> {
        self.attributes@.map_values(|p: (String, Value)| (p.0@, p.1))
    }

    /// No two attributes of the row share a name.
    pub open spec fn wf(&self) -> bool {
        keys_unique(self.attrs())
    }

    /// Create a new empty entity.
    pub fn new() -> (r: Entity)
        ensures
            r.attrs() == Seq::<(Seq<char>, Value)>::empty(),
            r.wf(),
    {
        let r = Entity { attributes: Vec::new() };
        assert(r.attrs() =~= Seq::<(Seq<char>, Value)>::empty());
        r
    }

    /// Where the attribute named `name` stands.
    fn position(&self, name: &String) -> (r: Option<usize>)
        ensures
            match r {
                Some(i) => i < self.attrs().len() && key_pos(self.attrs(), name@) == Some(i as int),
                None => key_pos(self.attrs(), name@) is None,
            },
    {
        proof {
            lemma_key_pos(self.attrs(), name@);
        }
        let mut i = self.attributes.len();
        assert(self.attrs().subrange(0, i as int) =~= self.attrs());
        while i > 0
            invariant
                i <= self.attrs().len(),
                key_pos(self.attrs(), name@) == key_pos(self.attrs().subrange(0, i as int), name@),
            decreases i,
        {
            let ghost pre = self.attrs().subrange(0, i as int);
            assert(pre.drop_last() =~= self.attrs().subrange(0, i - 1));
            assert(pre.last() == self.attrs()[i - 1]);
            if self.attributes[i - 1].0 == *name {
                return Some(i - 1);
            }
            i = i - 1;
        }
        None
    }

    /// Sets attribute `name` to `value`, replacing an existing value.
    pub fn insert(&mut self, name: String, value: Value)
        ensures
            final(self).attrs() == put_attr(old(self).attrs(), name@, value),
            old(self).wf() ==> final(self).wf(),
    {
        proof {
            if old(self).wf() {
                lemma_put_keeps_unique(old(self).attrs(), name@, value);
            }
        }
        let ghost k = name@;
        match self.position(&name) {
            Some(i) => {
                self.attributes.set(i, (name, value));
                assert(self.attrs() =~= put_attr(old(self).attrs(), k, value));
            },
            None => {
                self.attributes.push((name, value));
                assert(self.attrs() =~= put_attr(old(self).attrs(), k, value));
            },
        }
    }

    /// The value of attribute `name`, if the row has it.
    pub fn get(&self, name: &str) -> (r: Option<&Value>)
        ensures
            match r {
                Some(v) => get_attr(self.attrs(), name@) == Some(*v),
                None => get_attr(self.attrs(), name@) is None,
            },
    {
        let key = String::from_str(name);
        match self.position(&key) {
            Some(i) => Some(&self.attributes[i].1),
            None => None,
        }
    }

    /// The number of attributes.
    pub fn len(&self) -> (r: usize)
        ensures
            r == self.attrs().len(),
    {
        self.attributes.len()
    }
}

} // verus!
