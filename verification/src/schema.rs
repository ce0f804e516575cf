//! Schema composer: merges independently authored query roots into one
//! logical root type.
//!
//! Composition happens once at startup. A field name that occurs in two
//! roots is a fatal `CompositionError`, never a silent override, so the
//! composed schema's field names are unique by construction.

use vstd::prelude::*;

verus! {

/// A scalar result value.
#[derive(Debug, PartialEq, Eq)]
pub enum Scalar {
    Null,
    Bool(bool),
    Int(u64),
    Str(String),
}

/// The value one resolved field contributes to a response: a scalar, or one
/// record of named scalars (e.g. a row fetched from storage).
#[derive(Debug, PartialEq, Eq)]
pub enum Value {
    Scalar(Scalar),
    Record(Vec<(String, Scalar)>),
}

/// The mathematical model of a [`Scalar`].
pub enum ScalarModel {
    Null,
    Bool(bool),
    Int(u64),
    Str(Seq<char>),
}

/// The mathematical model of a [`Value`].
pub enum ValueModel {
    Scalar(ScalarModel),
    Record(Seq<(Seq<char>, ScalarModel)>),
}

impl View for Scalar {
    type V = ScalarModel;

    open spec fn view(&self) -> ScalarModel {
        match self {
            Scalar::Null => ScalarModel::Null,
            Scalar::Bool(b) => ScalarModel::Bool(*b),
            Scalar::Int(n) => ScalarModel::Int(*n),
            Scalar::Str(s) => ScalarModel::Str(s@),
        }
    }
}

impl View for Value {
    type V = ValueModel;

    open spec fn view(&self) -> ValueModel {
        match self {
            Value::Scalar(s) => ValueModel::Scalar(s@),
            Value::Record(fs) => ValueModel::Record(
                fs@.map(|i: int, p: (String, Scalar)| (p.0@, p.1@)),
            ),
        }
    }
}

impl Scalar {
    /// An owned copy with the same model.
    pub fn duplicate(&self) -> (r: Scalar)
        ensures
            r@ == self@,
    {
        match self {
            Scalar::Null => Scalar::Null,
            Scalar::Bool(b) => Scalar::Bool(*b),
            Scalar::Int(n) => Scalar::Int(*n),
            Scalar::Str(s) => Scalar::Str(s.clone()),
        }
    }
}

impl Value {
    /// An owned copy with the same model.
    pub fn duplicate(&self) -> (r: Value)
        ensures
            r@ == self@,
    {
        match self {
            Value::Scalar(s) => Value::Scalar(s.duplicate()),
            Value::Record(fs) => {
                let n = fs.len();
                let mut out: Vec<(String, Scalar)> = Vec::new();
                let mut i: usize = 0;
                while i < n
                    invariant
                        i <= n,
                        n == fs@.len(),
                        out@.len() == i,
                        forall|k: int| 0 <= k < i
                            ==> out@[k].0@ == fs@[k].0@ && out@[k].1@ == fs@[k].1@,
                    decreases n - i,
                {
                    let name = fs[i].0.clone();
                    let val = fs[i].1.duplicate();
                    out.push((name, val));
                    i = i + 1;
                }
                proof {
                    assert(out@.map(|k: int, p: (String, Scalar)| (p.0@, p.1@))
                        =~~= fs@.map(|k: int, p: (String, Scalar)| (p.0@, p.1@)));
                }
                Value::Record(out)
            },
        }
    }
}

/// How a schema field produces its value.
pub enum Resolver {
    /// Always succeeds with a constant boolean, independent of pool and
    /// storage state; the shape of a health-check probe.
    ConstBool(bool),
    /// Needs a pooled storage connection for the duration of its own
    /// execution; yields this value once a connection is leased.
    Storage(Value),
    /// A declared field whose implementation is missing: it fails every
    /// request it appears in, without crashing the process.
    Unimplemented,
}

/// One named field of a query root.
pub struct FieldDef {
    pub name: String,
    pub resolver: Resolver,
}

/// An independently authored query root: a named collection of fields.
pub struct RootDef {
    pub name: String,
    pub fields: Vec<FieldDef>,
}

/// Two merged roots declared the same field name.
#[derive(Debug, PartialEq, Eq)]
pub struct CompositionError {
    /// The field name that occurs more than once across the roots.
    pub duplicate: String,
}

/// No two fields share a name.
pub open spec fn names_unique(fields: Seq<FieldDef>) -> bool {
    forall|i: int, j: int| 0 <= i < j < fields.len() ==> fields[i].name@ != fields[j].name@
}

/// The fields of all roots, in root order then field order.
pub open spec fn all_fields(roots: Seq<RootDef>) -> Seq<FieldDef>
    decreases roots.len(),
{
    if roots.len() == 0 {
        Seq::empty()
    } else {
        roots[0].fields@ + all_fields(roots.drop_first())
    }
}

/// The index of the first field named `name`, if any.
pub open spec fn spec_find(fields: Seq<FieldDef>, name: Seq<char>) -> Option<int>
    decreases fields.len(),
{
    if fields.len() == 0 {
        None
    } else if fields[0].name@ == name {
        Some(0)
    } else {
        match spec_find(fields.drop_first(), name) {
            None => None,
            Some(i) => Some(i + 1),
        }
    }
}

/// Some field is named `name`.
pub open spec fn has_field(fields: Seq<FieldDef>, name: Seq<char>) -> bool {
    spec_find(fields, name) is Some
}

/// The schema: the merged root type, built once at startup and shared
/// read-only afterwards. Its field names are unique.
pub struct Schema {
    fields: Vec<FieldDef>,
}

impl Schema {
    pub closed spec fn spec_fields(self) -> Seq<FieldDef> {
        self.fields@
    }

    pub open spec fn wf(self) -> bool {
        names_unique(self.spec_fields())
    }

    pub fn num_fields(&self) -> (n: usize)
        ensures
            n == self.spec_fields().len(),
    {
        self.fields.len()
    }

    pub fn field(&self, i: usize) -> (f: &FieldDef)
        requires
            i < self.spec_fields().len(),
        ensures
            *f == self.spec_fields()[i as int],
    {
        &self.fields[i]
    }

    /// Looks a field up by name: the index of the first (with `wf`, only)
    /// field so named.
    pub fn find(&self, name: &String) -> (r: Option<usize>)
        ensures
            match r {
                Some(i) => spec_find(self.spec_fields(), name@) == Some(i as int)
                    && i < self.spec_fields().len()
                    && self.spec_fields()[i as int].name@ == name@,
                None => spec_find(self.spec_fields(), name@) is None,
            },
    {
        find_named(&self.fields, name)
    }
}

proof fn lemma_find_first(fields: Seq<FieldDef>, name: Seq<char>, i: int)
    requires
        0 <= i <= fields.len(),
        forall|k: int| 0 <= k < i ==> fields[k].name@ != name,
        i < fields.len() ==> fields[i].name@ == name,
    ensures
        i < fields.len() ==> spec_find(fields, name) == Some(i),
        i == fields.len() ==> spec_find(fields, name) is None,
    decreases fields.len(),
{
    if fields.len() > 0 && i > 0 {
        let rest = fields.drop_first();
        assert(forall|k: int| 0 <= k < i - 1 ==> rest[k].name@ != name);
        lemma_find_first(rest, name, i - 1);
    }
}

/// The index of the first field named `name` in `fields`, if any.
fn find_named(fields: &Vec<FieldDef>, name: &String) -> (r: Option<usize>)
    ensures
        match r {
            Some(i) => spec_find(fields@, name@) == Some(i as int)
                && i < fields@.len() && fields@[i as int].name@ == name@,
            None => spec_find(fields@, name@) is None
                && (forall|k: int| 0 <= k < fields@.len() ==> fields@[k].name@ != name@),
        },
{
    let n = fields.len();
    let mut i: usize = 0;
    while i < n
        invariant
            i <= n,
            n == fields@.len(),
            forall|k: int| 0 <= k < i ==> fields@[k].name@ != name@,
        decreases n - i,
    {
        if fields[i].name == *name {
            proof {
                lemma_find_first(fields@, name@, i as int);
            }
            return Some(i);
        }
        i = i + 1;
    }
    proof {
        lemma_find_first(fields@, name@, n as int);
    }
    None
}

/// Merges the fields of all roots into one schema.
///
/// Succeeds exactly when no field name occurs in two places; the schema then
/// holds every root's fields, in root order then field order. On a collision
/// the error carries the duplicated name.
#[verifier::loop_isolation(false)]
pub fn compose(roots: Vec<RootDef>) -> (r: Result<Schema, CompositionError>)
    ensures
        r is Ok <==> names_unique(all_fields(roots@)),
        (r matches Ok(s) ==> s.spec_fields() == all_fields(roots@) && s.wf()),
        (r matches Err(e) ==> exists|i: int, j: int|
            0 <= i < j < all_fields(roots@).len()
                && all_fields(roots@)[i].name@ == e.duplicate@
                && all_fields(roots@)[j].name@ == e.duplicate@),
{
    let ghost orig = roots@;
    let mut pending = roots;
    let mut merged: Vec<FieldDef> = Vec::new();
    while pending.len() > 0
        invariant
            merged@ + all_fields(pending@) == all_fields(orig),
            names_unique(merged@),
        decreases pending@.len(),
    {
        let root = pending.remove(0);
        let mut fields = root.fields;
        proof {
            assert(all_fields(orig) == merged@ + fields@ + all_fields(pending@));
        }
        while fields.len() > 0
            invariant
                merged@ + fields@ + all_fields(pending@) == all_fields(orig),
                names_unique(merged@),
            decreases fields@.len(),
        {
            let ghost pre_fields = fields@;
            let fd = fields.remove(0);
            let ghost pre_merged = merged@;
            proof {
                assert(pre_fields =~= seq![fd] + fields@);
                assert(pre_merged + pre_fields + all_fields(pending@) == all_fields(orig));
                assert(all_fields(orig) =~= pre_merged + seq![fd] + (fields@
                    + all_fields(pending@)));
            }
            match find_named(&merged, &fd.name) {
                Some(k) => {
                    proof {
                        let all = all_fields(orig);
                        let i = k as int;
                        let j = pre_merged.len() as int;
                        assert((pre_merged + seq![fd])[j] == fd);
                        assert(all[i] == pre_merged[i]);
                        assert(all[j] == fd);
                        assert(0 <= i < j < all.len());
                        assert(all[i].name@ == fd.name@ && all[j].name@ == fd.name@);
                        assert(exists|a: int, b: int|
                            0 <= a < b < all.len()
                                && all[a].name@ == fd.name@
                                && all[b].name@ == fd.name@) by {
                            assert(0 <= i < j < all.len()
                                && all[i].name@ == fd.name@
                                && all[j].name@ == fd.name@);
                        }
                        assert(names_unique(all) ==> all[i].name@ != all[j].name@);
                        assert(!names_unique(all));
                    }
                    return Err(CompositionError { duplicate: fd.name });
                },
                None => {
                    merged.push(fd);
                    proof {
                        assert(merged@ =~= pre_merged + seq![fd]);
                        assert(merged@ + fields@ + all_fields(pending@) =~= all_fields(orig));
                    }
                },
            }
        }
    }
    proof {
        assert(merged@ + all_fields(pending@) =~= merged@);
        assert(merged@ =~= all_fields(orig));
    }
    Ok(Schema { fields: merged })
}

/// Two roots compose exactly when each root's own field names are unique
/// and no name occurs in both: disjoint roots succeed, a shared field name
/// fails.
pub proof fn lemma_compose_two_roots(a: RootDef, b: RootDef)
    ensures
        names_unique(all_fields(seq![a, b])) <==> names_unique(a.fields@) && names_unique(b.fields@)
            && (forall|i: int, j: int|
            0 <= i < a.fields@.len() && 0 <= j < b.fields@.len()
                ==> a.fields@[i].name@ != b.fields@[j].name@),
{
    let fa = a.fields@;
    let fb = b.fields@;
    let all = all_fields(seq![a, b]);
    assert(seq![a, b][0] == a);
    assert(seq![a, b].drop_first() =~= seq![b]);
    assert(seq![b][0] == b);
    assert(seq![b].drop_first() =~= Seq::<RootDef>::empty());
    assert(all_fields(Seq::<RootDef>::empty()) == Seq::<FieldDef>::empty());
    assert(all_fields(seq![b]) == fb + Seq::<FieldDef>::empty());
    assert(all =~= fa + fb);
    assert(forall|i: int| 0 <= i < fa.len() ==> all[i] == fa[i]);
    assert(forall|j: int| 0 <= j < fb.len() ==> all[fa.len() + j] == fb[j]);
    if names_unique(all) {
        assert(forall|i: int, j: int|
            0 <= i < fa.len() && 0 <= j < fb.len() ==> #[trigger] fa[i].name@ != #[trigger] fb[j].name@) by {
            assert(forall|i: int, j: int|
                0 <= i < j < all.len() ==> #[trigger] all[i].name@ != #[trigger] all[j].name@);
        }
    }
    if names_unique(fa) && names_unique(fb) && (forall|i: int, j: int|
        0 <= i < fa.len() && 0 <= j < fb.len() ==> fa[i].name@ != fb[j].name@) {
        assert(forall|i: int, j: int| 0 <= i < j < all.len() ==> all[i].name@ != all[j].name@) by {
            assert(forall|i: int| 0 <= i < fa.len() ==> all[i] == fa[i]);
            assert(forall|j: int| fa.len() <= j < all.len() ==> all[j] == fb[j - fa.len()]);
        }
    }
}

} // verus!
