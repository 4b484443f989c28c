use crate::text::str_eq;
use vstd::prelude::*;

verus! {

broadcast use vstd::std_specs::vec::group_vec_axioms;

/// A type as the database server describes it.
#[derive(Debug)]
pub struct PgType {
    pub schema: String,
    pub name: String,
    pub kind: PgKind,
}

/// The kind of a server type.
#[derive(Debug)]
pub enum PgKind {
    /// A base type of the server.
    Simple,
    Array(Box<PgType>),
    Domain(Box<PgType>),
    Enum(Vec<String>),
    Composite(Vec<PgField>),
    /// Pseudo types, ranges and the other kinds that have no mapping.
    Other,
}

/// A field of a composite server type.
#[derive(Debug)]
pub struct PgField {
    pub name: String,
    pub ty: PgType,
}

/// A reference to an interned type: its place in the registrar, and whether
/// its native representation is `Copy`.
#[derive(PartialEq, Eq, Structural, Clone, Copy, Debug)]
pub struct TypeHandle {
    pub index: usize,
    pub is_copy: bool,
}

/// A field of an interned composite type.
#[derive(Debug)]
pub struct CompositeField {
    pub name: String,
    pub ty: TypeHandle,
}

/// The shape of an interned type that the server defines.
#[derive(Debug)]
pub enum CustomKind {
    Enum(Vec<String>),
    Domain(TypeHandle),
    Composite(Vec<CompositeField>),
    Array(TypeHandle),
}

/// An interned type.
#[derive(Debug)]
pub enum CoreType {
    Simple { pg_name: String, native: Primitive, is_copy: bool },
    Custom { pg_name: String, kind: CustomKind, is_copy: bool },
}

/// An entry of the registrar, under its `(schema, name)` key.
#[derive(Debug)]
pub struct RegisteredType {
    pub schema: String,
    pub name: String,
    pub ty: CoreType,
}

/// The error of a type that has no native mapping.
#[derive(Debug)]
pub struct UnsupportedType {
    pub pg_name: String,
}

/// The interning table of server types, keyed by `(schema, name)`.
#[derive(Debug)]
pub struct TypeRegistrar {
    pub types: Vec<RegisteredType>,
}

/// The native representation of a base type, which the renderer spells out.
#[derive(PartialEq, Eq, Structural, Clone, Copy, Debug)]
pub enum Primitive {
    Bool,
    Char,
    Int2,
    Int4,
    Int8,
    Float4,
    Float8,
    Text,
    Bytea,
    Timestamp,
    Timestamptz,
    Date,
    Time,
    Json,
    Uuid,
    Inet,
    MacAddr,
    Numeric,
}

/// The fixed table of base types: native representation and `Copy` bit, by
/// server name.
pub open spec fn primitive(name: Seq<char>) -> Option<(Primitive, bool)> {
    if name == "bool"@ {
        Some((Primitive::Bool, true))
    } else if name == "char"@ {
        Some((Primitive::Char, true))
    } else if name == "int2"@ {
        Some((Primitive::Int2, true))
    } else if name == "int4"@ {
        Some((Primitive::Int4, true))
    } else if name == "int8"@ {
        Some((Primitive::Int8, true))
    } else if name == "float4"@ {
        Some((Primitive::Float4, true))
    } else if name == "float8"@ {
        Some((Primitive::Float8, true))
    } else if name == "text"@ || name == "varchar"@ {
        Some((Primitive::Text, false))
    } else if name == "bytea"@ {
        Some((Primitive::Bytea, false))
    } else if name == "timestamp"@ {
        Some((Primitive::Timestamp, true))
    } else if name == "timestamptz"@ {
        Some((Primitive::Timestamptz, true))
    } else if name == "date"@ {
        Some((Primitive::Date, true))
    } else if name == "time"@ {
        Some((Primitive::Time, true))
    } else if name == "json"@ || name == "jsonb"@ {
        Some((Primitive::Json, false))
    } else if name == "uuid"@ {
        Some((Primitive::Uuid, true))
    } else if name == "inet"@ {
        Some((Primitive::Inet, true))
    } else if name == "macaddr"@ {
        Some((Primitive::MacAddr, true))
    } else if name == "numeric"@ {
        Some((Primitive::Numeric, true))
    } else {
        None
    }
}

/// Looks a base type up in the fixed table.
pub fn primitive_of(name: &str) -> (r: Option<(Primitive, bool)>)
    ensures
        r == primitive(name@),
{
    if str_eq(name, "bool") {
        Some((Primitive::Bool, true))
    } else if str_eq(name, "char") {
        Some((Primitive::Char, true))
    } else if str_eq(name, "int2") {
        Some((Primitive::Int2, true))
    } else if str_eq(name, "int4") {
        Some((Primitive::Int4, true))
    } else if str_eq(name, "int8") {
        Some((Primitive::Int8, true))
    } else if str_eq(name, "float4") {
        Some((Primitive::Float4, true))
    } else if str_eq(name, "float8") {
        Some((Primitive::Float8, true))
    } else if str_eq(name, "text") || str_eq(name, "varchar") {
        Some((Primitive::Text, false))
    } else if str_eq(name, "bytea") {
        Some((Primitive::Bytea, false))
    } else if str_eq(name, "timestamp") {
        Some((Primitive::Timestamp, true))
    } else if str_eq(name, "timestamptz") {
        Some((Primitive::Timestamptz, true))
    } else if str_eq(name, "date") {
        Some((Primitive::Date, true))
    } else if str_eq(name, "time") {
        Some((Primitive::Time, true))
    } else if str_eq(name, "json") || str_eq(name, "jsonb") {
        Some((Primitive::Json, false))
    } else if str_eq(name, "uuid") {
        Some((Primitive::Uuid, true))
    } else if str_eq(name, "inet") {
        Some((Primitive::Inet, true))
    } else if str_eq(name, "macaddr") {
        Some((Primitive::MacAddr, true))
    } else if str_eq(name, "numeric") {
        Some((Primitive::Numeric, true))
    } else {
        None
    }
}

impl CoreType {
    pub open spec fn spec_is_copy(&self) -> bool {
        match self {
            CoreType::Simple { is_copy, .. } => *is_copy,
            CoreType::Custom { is_copy, .. } => *is_copy,
        }
    }

    /// Whether the native representation of this type is `Copy`.
    pub fn is_copy(&self) -> (r: bool)
        ensures
            r == self.spec_is_copy(),
    {
        match self {
            CoreType::Simple { is_copy, .. } => *is_copy,
            CoreType::Custom { is_copy, .. } => *is_copy,
        }
    }
}

/// Whether every type below and including `t` has a native mapping.
pub open spec fn supported(t: PgType) -> bool
    decreases t,
{
    match t.kind {
        PgKind::Simple => primitive(t.name@) is Some,
        PgKind::Array(e) => supported(*e),
        PgKind::Domain(e) => supported(*e),
        PgKind::Enum(_) => true,
        PgKind::Composite(fs) => forall|i: int| 0 <= i < fs.len() ==> supported(#[trigger] fs[i].ty),
        PgKind::Other => false,
    }
}

/// Whether a proper part of `t` carries the key `(schema, name)`.
pub open spec fn key_below(t: PgType, schema: Seq<char>, name: Seq<char>) -> bool
    decreases t,
{
    match t.kind {
        PgKind::Array(e) => (e.schema@ == schema && e.name@ == name) || key_below(*e, schema, name),
        PgKind::Domain(e) => (e.schema@ == schema && e.name@ == name) || key_below(*e, schema, name),
        PgKind::Composite(fs) => exists|i: int|
            0 <= i < fs.len() && ((fs[i].ty.schema@ == schema && fs[i].ty.name@ == name)
                || key_below(#[trigger] fs[i].ty, schema, name)),
        _ => false,
    }
}

/// `t` or a part of it carries the key `(schema, name)`.
pub open spec fn key_within(t: PgType, schema: Seq<char>, name: Seq<char>) -> bool {
    (t.schema@ == schema && t.name@ == name) || key_below(t, schema, name)
}

pub open spec fn has_key(r: RegisteredType, t: PgType) -> bool {
    r.schema@ == t.schema@ && r.name@ == t.name@
}

/// `h` refers to an entry before `bound`, with that entry's `Copy` bit.
pub open spec fn handle_below(reg: Seq<RegisteredType>, h: TypeHandle, bound: int) -> bool {
    h.index < bound && h.is_copy == reg[h.index as int].ty.spec_is_copy()
}

/// `h` refers to an entry that carries the key of `t`.
pub open spec fn handle_for(reg: Seq<RegisteredType>, h: TypeHandle, t: PgType) -> bool {
    handle_below(reg, h, reg.len() as int) && has_key(reg[h.index as int], t)
}

/// Entry `i` refers only to earlier entries, and its `Copy` bit follows its parts.
pub open spec fn entry_wf(reg: Seq<RegisteredType>, i: int) -> bool {
    match reg[i].ty {
        CoreType::Simple { pg_name, native, is_copy } => pg_name@ == reg[i].name@ && primitive(
            pg_name@,
        ) == Some((native, is_copy)),
        CoreType::Custom { pg_name, kind, is_copy } => pg_name@ == reg[i].name@ && match kind {
            CustomKind::Enum(_) => is_copy,
            CustomKind::Domain(h) => handle_below(reg, h, i) && is_copy == h.is_copy,
            CustomKind::Array(h) => handle_below(reg, h, i) && !is_copy,
            CustomKind::Composite(fs) => (forall|j: int|
                0 <= j < fs.len() ==> handle_below(reg, #[trigger] fs[j].ty, i)) && (is_copy
                <==> forall|j: int| 0 <= j < fs.len() ==> (#[trigger] fs[j].ty).is_copy),
        },
    }
}

/// Entry `i` was made from `t`: its shape is `t`'s, one level down.
pub open spec fn entry_from(reg: Seq<RegisteredType>, i: int, t: PgType) -> bool {
    &&& has_key(reg[i], t)
    &&& match t.kind {
        PgKind::Simple => reg[i].ty is Simple,
        PgKind::Array(e) => match reg[i].ty {
            CoreType::Custom { kind: CustomKind::Array(h), .. } => handle_for(reg, h, *e),
            _ => false,
        },
        PgKind::Domain(e) => match reg[i].ty {
            CoreType::Custom { kind: CustomKind::Domain(h), .. } => handle_for(reg, h, *e),
            _ => false,
        },
        PgKind::Enum(vs) => match reg[i].ty {
            CoreType::Custom { kind: CustomKind::Enum(ws), .. } => ws@ == vs@,
            _ => false,
        },
        PgKind::Composite(fs) => match reg[i].ty {
            CoreType::Custom { kind: CustomKind::Composite(cs), .. } => cs.len() == fs.len()
                && forall|j: int|
                0 <= j < fs.len() ==> #[trigger] cs[j].name@ == fs[j].name@ && handle_for(
                reg,
                cs[j].ty,
                fs[j].ty,
            ),
            _ => false,
        },
        PgKind::Other => false,
    }
}

/// A handle stays valid, and refers to the same entry, as the table grows.
pub proof fn lemma_handle_for_extends(a: Seq<RegisteredType>, b: Seq<RegisteredType>, h: TypeHandle, t: PgType)
    requires
        extends(a, b),
        handle_for(a, h, t),
    ensures
        handle_for(b, h, t),
{
    assert(b[h.index as int] == a[h.index as int]);
}

/// `b` holds `a` as its first entries.
pub open spec fn extends(a: Seq<RegisteredType>, b: Seq<RegisteredType>) -> bool {
    a.len() <= b.len() && forall|i: int| 0 <= i < a.len() ==> #[trigger] b[i] == a[i]
}

pub open spec fn key_at(reg: Seq<RegisteredType>, t: PgType) -> Option<int> {
    if exists|i: int| 0 <= i < reg.len() && has_key(#[trigger] reg[i], t) {
        Some(choose|i: int| 0 <= i < reg.len() && has_key(#[trigger] reg[i], t))
    } else {
        None
    }
}

pub(crate) fn clone_strings(v: &Vec<String>) -> (r: Vec<String>)
    ensures
        r@ == v@,
{
    let mut r: Vec<String> = Vec::new();
    let mut i: usize = 0;
    while i < v.len()
        invariant
            i <= v.len(),
            r@ == v@.subrange(0, i as int),
        decreases v.len() - i,
    {
        r.push(v[i].clone());
        assert(r@ =~= v@.subrange(0, i + 1));
        i = i + 1;
    }
    assert(r@ =~= v@);
    r
}

impl TypeRegistrar {
    /// Keys are unique and every entry is well formed.
    pub open spec fn wf(&self) -> bool {
        &&& forall|i: int| 0 <= i < self.types.len() ==> entry_wf(self.types@, i)
        &&& forall|i: int, j: int|
            0 <= i < j < self.types.len() ==> !(#[trigger] self.types@[i].schema@
                == #[trigger] self.types@[j].schema@ && self.types@[i].name@
                == self.types@[j].name@)
    }

    pub fn new() -> (r: TypeRegistrar)
        ensures
            r.wf(),
            r.types@.len() == 0,
    {
        TypeRegistrar { types: Vec::new() }
    }

    /// The handle of the entry under `t`'s key, if `t` was registered.
    pub fn get(&self, t: &PgType) -> (r: Option<TypeHandle>)
        requires
            self.wf(),
        ensures
            r is Some <==> key_at(self.types@, *t) is Some,
            r is Some ==> r->0.index == key_at(self.types@, *t)->0 && handle_for(
                self.types@,
                r->0,
                *t,
            ),
    {
        let mut i: usize = 0;
        while i < self.types.len()
            invariant
                self.wf(),
                i <= self.types.len(),
                forall|k: int| 0 <= k < i ==> !has_key(#[trigger] self.types@[k], *t),
            decreases self.types.len() - i,
        {
            if str_eq(self.types[i].schema.as_str(), t.schema.as_str()) && str_eq(
                self.types[i].name.as_str(),
                t.name.as_str(),
            ) {
                let ghost k = key_at(self.types@, *t)->0;
                assert(has_key(self.types@[i as int], *t));
                assert(k == i) by {
                    assert(0 <= k < self.types.len() && has_key(self.types@[k], *t));
                    if k < i {
                        assert(self.types@[k].schema@ == self.types@[i as int].schema@);
                    } else if k > i {
                        assert(self.types@[i as int].schema@ == self.types@[k].schema@);
                    }
                }
                return Some(TypeHandle { index: i, is_copy: self.types[i].ty.is_copy() });
            }
            i = i + 1;
        }
        None
    }

    /// Interns `t` and, first, every type that it is made of. A type whose key
    /// is already present is returned as it stands, and nothing changes.
    pub fn register(&mut self, t: &PgType) -> (r: Result<TypeHandle, UnsupportedType>)
        requires
            old(self).wf(),
        ensures
            final(self).wf(),
            extends(old(self).types@, final(self).types@),
            forall|i: int|
                old(self).types.len() <= i < final(self).types.len() ==> key_within(
                    *t,
                    #[trigger] final(self).types@[i].schema@,
                    final(self).types@[i].name@,
                ),
            supported(*t) ==> r is Ok,
            key_at(old(self).types@, *t) is Some ==> r is Ok,
            match r {
                Ok(h) => {
                    &&& handle_for(final(self).types@, h, *t)
                    &&& key_at(old(self).types@, *t) is Some ==> h.index == key_at(
                        old(self).types@,
                        *t,
                    )->0 && final(self).types@ == old(self).types@
                    &&& key_at(old(self).types@, *t) is None && !key_below(
                        *t,
                        t.schema@,
                        t.name@,
                    ) ==> entry_from(final(self).types@, h.index as int, *t)
                },
                Err(_) => !supported(*t),
            },
        decreases t,
    {
        if let Some(h) = self.get(t) {
            return Ok(h);
        }
        let ghost start = self.types@;
        match &t.kind {
            PgKind::Simple => match primitive_of(t.name.as_str()) {
                Some((native, is_copy)) => {
                    let ty = CoreType::Simple { pg_name: t.name.clone(), native, is_copy };
                    self.conclude(t, ty, Ghost(start))
                },
                None => Err(UnsupportedType { pg_name: t.name.clone() }),
            },
            PgKind::Array(e) => match self.register(e) {
                Ok(h) => {
                    assert forall|i: int| start.len() <= i < self.types.len() implies key_below(
                        *t,
                        #[trigger] self.types@[i].schema@,
                        self.types@[i].name@,
                    ) by {
                        assert(key_within(**e, self.types@[i].schema@, self.types@[i].name@));
                    }
                    let ty = CoreType::Custom {
                        pg_name: t.name.clone(),
                        kind: CustomKind::Array(h),
                        is_copy: false,
                    };
                    self.conclude(t, ty, Ghost(start))
                },
                Err(err) => Err(err),
            },
            PgKind::Domain(e) => match self.register(e) {
                Ok(h) => {
                    assert forall|i: int| start.len() <= i < self.types.len() implies key_below(
                        *t,
                        #[trigger] self.types@[i].schema@,
                        self.types@[i].name@,
                    ) by {
                        assert(key_within(**e, self.types@[i].schema@, self.types@[i].name@));
                    }
                    let ty = CoreType::Custom {
                        pg_name: t.name.clone(),
                        kind: CustomKind::Domain(h),
                        is_copy: h.is_copy,
                    };
                    self.conclude(t, ty, Ghost(start))
                },
                Err(err) => Err(err),
            },
            PgKind::Enum(vs) => {
                let ty = CoreType::Custom {
                    pg_name: t.name.clone(),
                    kind: CustomKind::Enum(clone_strings(vs)),
                    is_copy: true,
                };
                self.conclude(t, ty, Ghost(start))
            },
            PgKind::Composite(fs) => {
                let mut cs: Vec<CompositeField> = Vec::new();
                let mut all_copy = true;
                let mut k: usize = 0;
                while k < fs.len()
                    invariant
                        self.wf(),
                        extends(start, self.types@),
                        start == old(self).types@,
                        key_at(start, *t) is None,
                        t.kind == PgKind::Composite(*fs),
                        forall|i: int|
                            start.len() <= i < self.types.len() ==> key_below(
                                *t,
                                #[trigger] self.types@[i].schema@,
                                self.types@[i].name@,
                            ),
                        k <= fs.len(),
                        cs.len() == k,
                        forall|j: int|
                            #![trigger cs@[j]]
                            0 <= j < k ==> cs@[j].name@ == fs@[j].name@ && handle_for(
                                self.types@,
                                cs@[j].ty,
                                fs@[j].ty,
                            ),
                        all_copy == forall|j: int| #![trigger cs@[j]] 0 <= j < k ==> cs@[j].ty.is_copy,
                        supported(*t) ==> forall|j: int|
                            0 <= j < fs.len() ==> supported(#[trigger] fs@[j].ty),
                    decreases fs.len() - k,
                {
                    let ghost before = self.types@;
                    let ghost cs_before = cs@;
                    match self.register(&fs[k].ty) {
                        Ok(h) => {
                            assert forall|i: int|
                                start.len() <= i < self.types.len() implies key_below(
                                *t,
                                #[trigger] self.types@[i].schema@,
                                self.types@[i].name@,
                            ) by {
                                if i >= before.len() {
                                    assert(key_within(
                                        fs@[k as int].ty,
                                        self.types@[i].schema@,
                                        self.types@[i].name@,
                                    ));
                                } else {
                                    assert(before[i] == self.types@[i]);
                                }
                            }
                            cs.push(CompositeField { name: fs[k].name.clone(), ty: h });
                            assert(cs@ == cs_before.push(cs@[k as int]));
                            let ghost copy_before = all_copy;
                            all_copy = all_copy && h.is_copy;
                            k = k + 1;
                            proof {
                                assert forall|j: int| 0 <= j < k - 1 implies #[trigger] cs@[j]
                                    == cs_before[j] by {}
                                if !copy_before {
                                    let w = choose|j: int|
                                        0 <= j < k - 1 && !(#[trigger] cs_before[j]).ty.is_copy;
                                    assert(cs@[w] == cs_before[w]);
                                } else if !h.is_copy {
                                    assert(cs@[k - 1].ty == h);
                                }
                            }
                            assert forall|j: int| #![trigger cs@[j]] 0 <= j < k implies cs@[j].name@
                                == fs@[j].name@ && handle_for(self.types@, cs@[j].ty, fs@[j].ty) by {
                                if j < k - 1 {
                                    assert(cs@[j] == cs_before[j]);
                                    assert(before[cs@[j].ty.index as int]
                                        == self.types@[cs@[j].ty.index as int]);
                                }
                            }
                        },
                        Err(err) => {
                            return Err(err);
                        },
                    }
                }
                let ty = CoreType::Custom {
                    pg_name: t.name.clone(),
                    kind: CustomKind::Composite(cs),
                    is_copy: all_copy,
                };
                self.conclude(t, ty, Ghost(start))
            },
            PgKind::Other => Err(UnsupportedType { pg_name: t.name.clone() }),
        }
    }

    /// Adds the entry for `t` once its parts are interned, unless one of them
    /// carried `t`'s own key.
    fn conclude(&mut self, t: &PgType, ty: CoreType, Ghost(start): Ghost<Seq<RegisteredType>>) -> (r: Result<TypeHandle, UnsupportedType>)
        requires
            old(self).wf(),
            extends(start, old(self).types@),
            key_at(start, *t) is None,
            forall|i: int|
                start.len() <= i < old(self).types.len() ==> key_below(
                    *t,
                    #[trigger] old(self).types@[i].schema@,
                    old(self).types@[i].name@,
                ),
            entry_wf(old(self).types@.push(RegisteredType { schema: t.schema, name: t.name, ty }), old(self).types.len() as int),
            !key_below(*t, t.schema@, t.name@) ==> entry_from(old(self).types@.push(RegisteredType { schema: t.schema, name: t.name, ty }), old(self).types.len() as int, *t),
        ensures
            final(self).wf(),
            extends(old(self).types@, final(self).types@),
            forall|i: int|
                old(self).types.len() <= i < final(self).types.len() ==> (#[trigger] final(self).types@[i].schema@ == t.schema@ && final(self).types@[i].name@ == t.name@),
            r matches Ok(h) && handle_for(final(self).types@, h, *t) && (!key_below(*t, t.schema@, t.name@) ==> entry_from(final(self).types@, h.index as int, *t)),
    {
        if let Some(h) = self.get(t) {
            proof {
                let i = h.index as int;
                if i < start.len() {
                    assert(start[i] == self.types@[i]);
                    assert(has_key(start[i], *t));
                }
                assert(key_below(*t, self.types@[i].schema@, self.types@[i].name@));
            }
            return Ok(h);
        }
        let ghost mid = self.types@;
        let index = self.types.len();
        let is_copy = ty.is_copy();
        let entry = RegisteredType { schema: t.schema.clone(), name: t.name.clone(), ty };
        self.types.push(entry);
        proof {
            let n = index as int;
            assert(self.types@ == mid.push(RegisteredType { schema: t.schema, name: t.name, ty }));
            assert forall|i: int| 0 <= i < n implies entry_wf(self.types@, i) by {
                assert(entry_wf(mid, i));
            }
            assert forall|i: int, j: int|
                0 <= i < j < self.types.len() implies !(#[trigger] self.types@[i].schema@
                == #[trigger] self.types@[j].schema@ && self.types@[i].name@
                == self.types@[j].name@) by {
                if j == n {
                    assert(!has_key(mid[i], *t));
                }
            }
        }
        Ok(TypeHandle { index, is_copy })
    }

    /// The interned type that `h` refers to.
    pub fn core_type(&self, h: TypeHandle) -> (r: &CoreType)
        requires
            h.index < self.types.len(),
        ensures
            *r == self.types@[h.index as int].ty,
    {
        &self.types[h.index].ty
    }
}

/// Registration is idempotent: once `t` has been registered with handle `h`,
/// the registrar holds `t`'s key at `h` and nowhere else, so registering
/// `t` again returns `h` and leaves the registrar as it is.
pub proof fn lemma_register_idempotent(reg: TypeRegistrar, t: PgType, h: TypeHandle)
    requires
        reg.wf(),
        handle_for(reg.types@, h, t),
    ensures
        key_at(reg.types@, t) == Some(h.index as int),
{
    let i = h.index as int;
    assert(has_key(reg.types@[i], t));
    let k = key_at(reg.types@, t)->0;
    assert(0 <= k < reg.types.len() && has_key(reg.types@[k], t));
    if k < i {
        assert(reg.types@[k].schema@ == reg.types@[i].schema@);
    } else if k > i {
        assert(reg.types@[i].schema@ == reg.types@[k].schema@);
    }
}

/// The handle that a well-formed registrar gives for `t`'s key.
pub open spec fn handle_of(reg: Seq<RegisteredType>, t: PgType) -> TypeHandle {
    let i = key_at(reg, t)->0;
    TypeHandle { index: i as usize, is_copy: reg[i].ty.spec_is_copy() }
}

/// In a well-formed registrar a handle for `t` is the one handle of its key.
pub proof fn lemma_handle_is_unique(reg: TypeRegistrar, t: PgType, h: TypeHandle)
    requires
        reg.wf(),
        handle_for(reg.types@, h, t),
    ensures
        h == handle_of(reg.types@, t),
{
    lemma_register_idempotent(reg, t, h);
}

} // verus!
