//! The type model: a recursive value describing any concrete or templated
//! type, with textual template substitution for code generation.

use vstd::prelude::*;

use crate::strutil::{
    dec_str, lemma_strs_view_props, replace_all, sort_uniq, str_replace_all, strs_view,
    usize_to_string,
};

verus! {

/// An import required by a codec: a module path plus one exported symbol.
#[derive(Debug)]
pub struct Import {
    /// The module path to import from (e.g. `rkyv-js/lib/uuid`).
    pub module: String,
    /// The export name to import (e.g. `uuid`).
    pub export_name: String,
}

/// Ghost model of an [`Import`].
pub struct ImportV {
    pub module: Seq<char>,
    pub export_name: Seq<char>,
}

impl View for Import {
    type V = ImportV;

    open spec fn view(&self) -> ImportV {
        ImportV { module: self.module@, export_name: self.export_name@ }
    }
}

/// A data-driven description of an externally-defined type: templates for
/// the codec expression and the target-language type (placeholders `{0}`,
/// `{1}`, ... stand for type parameters), the import the codec needs, if
/// any, and the already-resolved type parameters.
#[derive(Debug)]
pub struct ExternalType {
    /// Template for the codec expression, e.g. `indexMap({0}, {1})`.
    pub codec_expr: String,
    /// Template for the target-language type, e.g. `Map<{0}, {1}>`.
    pub ts_type: String,
    /// The import required by this codec, if any.
    pub import: Option<Import>,
    /// Resolved inner type parameters.
    pub type_params: Vec<TypeDef>,
}

/// A type that the generator can render: primitives, containers, a named
/// reference to another entry, or an externally-registered type.
#[derive(Debug)]
pub enum TypeDef {
    U8,
    I8,
    U16,
    I16,
    U32,
    I32,
    U64,
    I64,
    F32,
    F64,
    Bool,
    Char,
    Unit,
    /// An owned text string.
    Text,
    /// An owned growable list.
    List(Box<TypeDef>),
    /// An optional value.
    Optional(Box<TypeDef>),
    /// An owned indirection.
    Boxed(Box<TypeDef>),
    /// A fixed-size array of N elements.
    Array(Box<TypeDef>, usize),
    /// A tuple of elements.
    Tuple(Vec<TypeDef>),
    /// A reference to another entry by its declared name, resolved to a
    /// final output identifier only at emission time.
    Named(String),
    /// An externally-registered type carrying its templates.
    External(ExternalType),
}

/// Ghost model of an [`ExternalType`].
pub struct ExternalTypeV {
    pub codec_expr: Seq<char>,
    pub ts_type: Seq<char>,
    pub import: Option<ImportV>,
    pub type_params: Seq<TypeDefV>,
}

/// Ghost model of a [`TypeDef`].
pub enum TypeDefV {
    U8,
    I8,
    U16,
    I16,
    U32,
    I32,
    U64,
    I64,
    F32,
    F64,
    Bool,
    Char,
    Unit,
    Text,
    List(Box<TypeDefV>),
    Optional(Box<TypeDefV>),
    Boxed(Box<TypeDefV>),
    Array(Box<TypeDefV>, nat),
    Tuple(Seq<TypeDefV>),
    Named(Seq<char>),
    External(ExternalTypeV),
}

pub open spec fn td_view(t: TypeDef) -> TypeDefV
    decreases t,
{
    match t {
        TypeDef::U8 => TypeDefV::U8,
        TypeDef::I8 => TypeDefV::I8,
        TypeDef::U16 => TypeDefV::U16,
        TypeDef::I16 => TypeDefV::I16,
        TypeDef::U32 => TypeDefV::U32,
        TypeDef::I32 => TypeDefV::I32,
        TypeDef::U64 => TypeDefV::U64,
        TypeDef::I64 => TypeDefV::I64,
        TypeDef::F32 => TypeDefV::F32,
        TypeDef::F64 => TypeDefV::F64,
        TypeDef::Bool => TypeDefV::Bool,
        TypeDef::Char => TypeDefV::Char,
        TypeDef::Unit => TypeDefV::Unit,
        TypeDef::Text => TypeDefV::Text,
        TypeDef::List(inner) => TypeDefV::List(Box::new(td_view(*inner))),
        TypeDef::Optional(inner) => TypeDefV::Optional(Box::new(td_view(*inner))),
        TypeDef::Boxed(inner) => TypeDefV::Boxed(Box::new(td_view(*inner))),
        TypeDef::Array(inner, n) => TypeDefV::Array(Box::new(td_view(*inner)), n as nat),
        TypeDef::Tuple(elems) => TypeDefV::Tuple(tds_view(elems@)),
        TypeDef::Named(name) => TypeDefV::Named(name@),
        TypeDef::External(ext) => TypeDefV::External(ext_view(ext)),
    }
}

pub open spec fn tds_view(s: Seq<TypeDef>) -> Seq<TypeDefV>
    decreases s,
{
    if s.len() == 0 {
        Seq::empty()
    } else {
        tds_view(s.drop_last()).push(td_view(s.last()))
    }
}

pub open spec fn ext_view(e: ExternalType) -> ExternalTypeV
    decreases e,
{
    ExternalTypeV {
        codec_expr: e.codec_expr@,
        ts_type: e.ts_type@,
        import: match e.import {
            Option::Some(i) => Option::Some(i@),
            Option::None => Option::None,
        },
        type_params: tds_view(e.type_params@),
    }
}

impl View for TypeDef {
    type V = TypeDefV;

    open spec fn view(&self) -> TypeDefV {
        td_view(*self)
    }
}

impl View for ExternalType {
    type V = ExternalTypeV;

    open spec fn view(&self) -> ExternalTypeV {
        ext_view(*self)
    }
}

pub proof fn lemma_tds_view_props(s: Seq<TypeDef>)
    ensures
        tds_view(s).len() == s.len(),
        forall|i: int| 0 <= i < s.len() ==> tds_view(s)[i] == td_view(s[i]),
    decreases s,
{
    if s.len() > 0 {
        lemma_tds_view_props(s.drop_last());
    }
}

// ------------------------------------------------------------------
// Archived-name resolution
// ------------------------------------------------------------------

/// First match of key `k` in an association list of name pairs.
pub open spec fn nm_lookup(m: Seq<(Seq<char>, Seq<char>)>, k: Seq<char>) -> Option<Seq<char>>
    decreases m.len(),
{
    if m.len() == 0 {
        Option::None
    } else if m[0].0 == k {
        Option::Some(m[0].1)
    } else {
        nm_lookup(m.skip(1), k)
    }
}

/// The output identifier a named reference resolves to: the mapped
/// archived name, or `Archived<Name>` when the map has no entry.
pub open spec fn archived_ref(m: Seq<(Seq<char>, Seq<char>)>, name: Seq<char>) -> Seq<char> {
    match nm_lookup(m, name) {
        Option::Some(a) => a,
        Option::None => "Archived"@ + name,
    }
}

/// A name-to-archived-name table used to resolve named references.
#[derive(Debug)]
pub struct NameMap {
    pairs: Vec<(String, String)>,
}

pub open spec fn nm_view(s: Seq<(String, String)>) -> Seq<(Seq<char>, Seq<char>)>
    decreases s,
{
    if s.len() == 0 {
        Seq::empty()
    } else {
        nm_view(s.drop_last()).push((s.last().0@, s.last().1@))
    }
}

pub proof fn lemma_nm_view_props(s: Seq<(String, String)>)
    ensures
        nm_view(s).len() == s.len(),
        forall|i: int|
            0 <= i < s.len() ==> nm_view(s)[i] == (s[i].0@, s[i].1@),
    decreases s,
{
    if s.len() > 0 {
        lemma_nm_view_props(s.drop_last());
    }
}

impl View for NameMap {
    type V = Seq<(Seq<char>, Seq<char>)>;

    closed spec fn view(&self) -> Seq<(Seq<char>, Seq<char>)> {
        nm_view(self.pairs@)
    }
}

impl NameMap {
    /// An empty table.
    pub fn new() -> (r: NameMap)
        ensures
            r@ == Seq::<(Seq<char>, Seq<char>)>::empty(),
    {
        NameMap { pairs: Vec::new() }
    }

    /// Record that entry `name` emits under the identifier `archived`.
    pub fn push(&mut self, name: String, archived: String)
        ensures
            final(self)@ == old(self)@.push((name@, archived@)),
    {
        let ghost old_pairs = self.pairs@;
        self.pairs.push((name, archived));
        proof {
            assert(self.pairs@.drop_last() =~= old_pairs);
        }
    }

    /// Resolve `name` to its output identifier, falling back to the
    /// `Archived<Name>` convention when the table has no entry.
    pub fn resolve(&self, name: &str) -> (r: String)
        ensures
            r@ == archived_ref(self@, name@),
    {
        let n = self.pairs.len();
        let mut i: usize = 0;
        proof {
            lemma_nm_view_props(self.pairs@);
            assert(self@.skip(0) =~= self@);
        }
        while i < n
            invariant
                i <= n,
                n == self.pairs.len(),
                self@.len() == n,
                forall|j: int|
                    0 <= j < n ==> self@[j] == (self.pairs@[j].0@, self.pairs@[j].1@),
                nm_lookup(self@, name@) == nm_lookup(self@.skip(i as int), name@),
            decreases n - i,
        {
            let k = &self.pairs[i].0;
            if crate::strutil::str_eq(k.as_str(), name) {
                proof {
                    assert(self@.skip(i as int)[0] == self@[i as int]);
                }
                return self.pairs[i].1.clone();
            }
            proof {
                assert(self@.skip(i as int)[0] == self@[i as int]);
                assert(self@.skip(i as int).skip(1) =~= self@.skip(i + 1));
            }
            i = i + 1;
        }
        let mut r = String::new();
        r.append("Archived");
        r.append(name);
        proof {
            assert(Seq::<char>::empty() + "Archived"@ + name@ =~= "Archived"@ + name@);
        }
        r
    }
}

// ------------------------------------------------------------------
// Rendering specifications
// ------------------------------------------------------------------

/// The codec expression for a type, with named references resolved
/// through the archived-name map `m`.
pub open spec fn codec_expr(t: TypeDefV, m: Seq<(Seq<char>, Seq<char>)>) -> Seq<char>
    decreases t, 0nat,
{
    match t {
        TypeDefV::U8 => "r.u8"@,
        TypeDefV::I8 => "r.i8"@,
        TypeDefV::U16 => "r.u16"@,
        TypeDefV::I16 => "r.i16"@,
        TypeDefV::U32 => "r.u32"@,
        TypeDefV::I32 => "r.i32"@,
        TypeDefV::U64 => "r.u64"@,
        TypeDefV::I64 => "r.i64"@,
        TypeDefV::F32 => "r.f32"@,
        TypeDefV::F64 => "r.f64"@,
        TypeDefV::Bool => "r.bool"@,
        TypeDefV::Char => "r.char"@,
        TypeDefV::Unit => "r.unit"@,
        TypeDefV::Text => "r.string"@,
        TypeDefV::List(inner) => "r.vec("@ + codec_expr(*inner, m) + ")"@,
        TypeDefV::Optional(inner) => "r.option("@ + codec_expr(*inner, m) + ")"@,
        TypeDefV::Boxed(inner) => "r.box("@ + codec_expr(*inner, m) + ")"@,
        TypeDefV::Array(inner, n) => "r.array("@ + codec_expr(*inner, m) + ", "@ + dec_str(n)
            + ")"@,
        TypeDefV::Tuple(elems) => "r.tuple("@ + codec_expr_list(elems, m) + ")"@,
        TypeDefV::Named(name) => archived_ref(m, name),
        TypeDefV::External(ext) => ext_codec_expr(ext, m),
    }
}

/// Codec expressions of `elems`, joined by `", "`.
pub open spec fn codec_expr_list(elems: Seq<TypeDefV>, m: Seq<(Seq<char>, Seq<char>)>) -> Seq<
    char,
>
    decreases elems, 1nat,
{
    if elems.len() == 0 {
        Seq::empty()
    } else if elems.len() == 1 {
        codec_expr(elems[0], m)
    } else {
        codec_expr_list(elems.drop_last(), m) + ", "@ + codec_expr(elems.last(), m)
    }
}

/// The codec expression of an externally-registered type: its template
/// with each placeholder `{i}` replaced by parameter `i`'s expression.
pub open spec fn ext_codec_expr(e: ExternalTypeV, m: Seq<(Seq<char>, Seq<char>)>) -> Seq<char>
    decreases e, 0nat,
{
    subst_params_codec(e.codec_expr, e.type_params, m, 0)
}

/// The placeholder token for parameter `i`: `{i}`.
pub open spec fn placeholder(i: nat) -> Seq<char> {
    seq!['{'] + dec_str(i) + seq!['}']
}

/// Substitute parameters `i..` of `params` into the accumulated template.
pub open spec fn subst_params_codec(
    acc: Seq<char>,
    params: Seq<TypeDefV>,
    m: Seq<(Seq<char>, Seq<char>)>,
    i: nat,
) -> Seq<char>
    decreases params, params.len() - i,
{
    if i >= params.len() {
        acc
    } else {
        subst_params_codec(
            replace_all(acc, placeholder(i), codec_expr(params[i as int], m)),
            params,
            m,
            i + 1,
        )
    }
}

/// The target-language type for values decoded by a type.
pub open spec fn ts_type(t: TypeDefV) -> Seq<char>
    decreases t, 0nat,
{
    match t {
        TypeDefV::U8 => "number"@,
        TypeDefV::I8 => "number"@,
        TypeDefV::U16 => "number"@,
        TypeDefV::I16 => "number"@,
        TypeDefV::U32 => "number"@,
        TypeDefV::I32 => "number"@,
        TypeDefV::U64 => "bigint"@,
        TypeDefV::I64 => "bigint"@,
        TypeDefV::F32 => "number"@,
        TypeDefV::F64 => "number"@,
        TypeDefV::Bool => "boolean"@,
        TypeDefV::Char => "string"@,
        TypeDefV::Unit => "null"@,
        TypeDefV::Text => "string"@,
        TypeDefV::List(inner) => ts_type(*inner) + "[]"@,
        TypeDefV::Optional(inner) => ts_type(*inner) + " | null"@,
        TypeDefV::Boxed(inner) => ts_type(*inner),
        TypeDefV::Array(inner, _n) => ts_type(*inner) + "[]"@,
        TypeDefV::Tuple(elems) => "["@ + ts_type_list(elems) + "]"@,
        TypeDefV::Named(name) => name,
        TypeDefV::External(ext) => ext_ts_type(ext),
    }
}

/// Target-language types of `elems`, joined by `", "`.
pub open spec fn ts_type_list(elems: Seq<TypeDefV>) -> Seq<char>
    decreases elems, 1nat,
{
    if elems.len() == 0 {
        Seq::empty()
    } else if elems.len() == 1 {
        ts_type(elems[0])
    } else {
        ts_type_list(elems.drop_last()) + ", "@ + ts_type(elems.last())
    }
}

/// The target-language type of an externally-registered type.
pub open spec fn ext_ts_type(e: ExternalTypeV) -> Seq<char>
    decreases e, 0nat,
{
    subst_params_ts(e.ts_type, e.type_params, 0)
}

/// Substitute parameters `i..` of `params` into the accumulated template.
pub open spec fn subst_params_ts(acc: Seq<char>, params: Seq<TypeDefV>, i: nat) -> Seq<char>
    decreases params, params.len() - i,
{
    if i >= params.len() {
        acc
    } else {
        subst_params_ts(replace_all(acc, placeholder(i), ts_type(params[i as int])), params, i + 1)
    }
}

/// All imports a type requires, in discovery order, duplicates kept.
pub open spec fn imports_of(t: TypeDefV) -> Seq<ImportV>
    decreases t, 0nat,
{
    match t {
        TypeDefV::List(inner) => imports_of(*inner),
        TypeDefV::Optional(inner) => imports_of(*inner),
        TypeDefV::Boxed(inner) => imports_of(*inner),
        TypeDefV::Array(inner, _n) => imports_of(*inner),
        TypeDefV::Tuple(elems) => imports_of_list(elems),
        TypeDefV::External(ext) => (match ext.import {
            Option::Some(i) => seq![i],
            Option::None => Seq::empty(),
        }) + imports_of_list(ext.type_params),
        _ => Seq::empty(),
    }
}

/// Imports of each element of `elems`, concatenated.
pub open spec fn imports_of_list(elems: Seq<TypeDefV>) -> Seq<ImportV>
    decreases elems, 1nat,
{
    if elems.len() == 0 {
        Seq::empty()
    } else {
        imports_of_list(elems.drop_last()) + imports_of(elems.last())
    }
}

/// All names of entries a type refers to, in discovery order.
pub open spec fn named_deps_of(t: TypeDefV) -> Seq<Seq<char>>
    decreases t, 0nat,
{
    match t {
        TypeDefV::List(inner) => named_deps_of(*inner),
        TypeDefV::Optional(inner) => named_deps_of(*inner),
        TypeDefV::Boxed(inner) => named_deps_of(*inner),
        TypeDefV::Array(inner, _n) => named_deps_of(*inner),
        TypeDefV::Tuple(elems) => named_deps_of_list(elems),
        TypeDefV::Named(name) => seq![name],
        TypeDefV::External(ext) => named_deps_of_list(ext.type_params),
        _ => Seq::empty(),
    }
}

/// Named dependencies of each element of `elems`, concatenated.
pub open spec fn named_deps_of_list(elems: Seq<TypeDefV>) -> Seq<Seq<char>>
    decreases elems, 1nat,
{
    if elems.len() == 0 {
        Seq::empty()
    } else {
        named_deps_of_list(elems.drop_last()) + named_deps_of(elems.last())
    }
}


// ------------------------------------------------------------------
// Further view helpers
// ------------------------------------------------------------------

pub open spec fn imports_view(s: Seq<Import>) -> Seq<ImportV>
    decreases s,
{
    if s.len() == 0 {
        Seq::empty()
    } else {
        imports_view(s.drop_last()).push(s.last()@)
    }
}

pub proof fn lemma_imports_view_props(s: Seq<Import>)
    ensures
        imports_view(s).len() == s.len(),
        forall|i: int| 0 <= i < s.len() ==> imports_view(s)[i] == s[i]@,
    decreases s,
{
    if s.len() > 0 {
        lemma_imports_view_props(s.drop_last());
    }
}

// ------------------------------------------------------------------
// Cloning (value-preserving, stated over views)
// ------------------------------------------------------------------

impl Clone for Import {
    fn clone(&self) -> (r: Self)
        ensures
            r@ == self@,
    {
        Import { module: self.module.clone(), export_name: self.export_name.clone() }
    }
}

/// Clone an optional import, preserving its view.
fn clone_opt_import(o: &Option<Import>) -> (r: Option<Import>)
    ensures
        match r {
            Option::Some(i) => o is Some && i@ == o->0@,
            Option::None => o is None,
        },
{
    match o {
        Option::Some(i) => Option::Some(i.clone()),
        Option::None => Option::None,
    }
}

/// Clone a list of types, preserving its view.
fn clone_tds(v: &Vec<TypeDef>) -> (r: Vec<TypeDef>)
    ensures
        tds_view(r@) == tds_view(v@),
    decreases v,
{
    let n = v.len();
    let mut out: Vec<TypeDef> = Vec::new();
    proof {
        lemma_tds_view_props(v@);
        assert(v@.take(0) =~= Seq::empty());
    }
    let mut i: usize = 0;
    while i < n
        invariant
            i <= n,
            n == v.len(),
            out@.len() == i,
            tds_view(out@) == tds_view(v@.take(i as int)),
            forall|j: int| 0 <= j < v@.len() ==> tds_view(v@)[j] == td_view(v@[j]),
        decreases n - i,
    {
        let ghost old_out = out@;
        let c = v[i].clone();
        out.push(c);
        proof {
            assert(out@.drop_last() =~= old_out);
            assert(v@.take(i + 1).drop_last() =~= v@.take(i as int));
            assert(v@.take(i + 1).last() == v@[i as int]);
            lemma_tds_view_props(v@.take(i + 1));
        }
        i = i + 1;
    }
    proof {
        assert(v@.take(n as int) =~= v@);
    }
    out
}

impl Clone for ExternalType {
    fn clone(&self) -> (r: Self)
        ensures
            r@ == self@,
        decreases self,
    {
        ExternalType {
            codec_expr: self.codec_expr.clone(),
            ts_type: self.ts_type.clone(),
            import: clone_opt_import(&self.import),
            type_params: clone_tds(&self.type_params),
        }
    }
}

impl Clone for TypeDef {
    fn clone(&self) -> (r: Self)
        ensures
            r@ == self@,
        decreases self,
    {
        match self {
            TypeDef::U8 => TypeDef::U8,
            TypeDef::I8 => TypeDef::I8,
            TypeDef::U16 => TypeDef::U16,
            TypeDef::I16 => TypeDef::I16,
            TypeDef::U32 => TypeDef::U32,
            TypeDef::I32 => TypeDef::I32,
            TypeDef::U64 => TypeDef::U64,
            TypeDef::I64 => TypeDef::I64,
            TypeDef::F32 => TypeDef::F32,
            TypeDef::F64 => TypeDef::F64,
            TypeDef::Bool => TypeDef::Bool,
            TypeDef::Char => TypeDef::Char,
            TypeDef::Unit => TypeDef::Unit,
            TypeDef::Text => TypeDef::Text,
            TypeDef::List(inner) => TypeDef::List(Box::new((&**inner).clone())),
            TypeDef::Optional(inner) => TypeDef::Optional(Box::new((&**inner).clone())),
            TypeDef::Boxed(inner) => TypeDef::Boxed(Box::new((&**inner).clone())),
            TypeDef::Array(inner, n) => TypeDef::Array(Box::new((&**inner).clone()), *n),
            TypeDef::Tuple(elems) => TypeDef::Tuple(clone_tds(elems)),
            TypeDef::Named(name) => TypeDef::Named(name.clone()),
            TypeDef::External(ext) => TypeDef::External(ext.clone()),
        }
    }
}


// ------------------------------------------------------------------
// Exec rendering
// ------------------------------------------------------------------

impl ExternalType {
    /// Substitute each type parameter's resolved codec expression into the
    /// codec template.
    pub fn resolve_codec_expr(&self, names: &NameMap) -> (r: String)
        ensures
            r@ == ext_codec_expr(self@, names@),
        decreases self, 1nat,
    {
        let ghost pv = tds_view(self.type_params@);
        let mut acc = self.codec_expr.clone();
        let n = self.type_params.len();
        let mut i: usize = 0;
        proof {
            lemma_tds_view_props(self.type_params@);
        }
        while i < n
            invariant
                i <= n,
                n == self.type_params.len(),
                pv == tds_view(self.type_params@),
                pv.len() == n,
                forall|j: int| 0 <= j < n ==> pv[j] == td_view(self.type_params@[j]),
                subst_params_codec(self.codec_expr@, pv, names@, 0) == subst_params_codec(
                    acc@,
                    pv,
                    names@,
                    i as nat,
                ),
            decreases n - i,
        {
            let mut ph = String::new();
            ph.append("{");
            let num = usize_to_string(i);
            ph.append(num.as_str());
            ph.append("}");
            proof {
                reveal_strlit("{");
                reveal_strlit("}");
                assert(ph@ =~= placeholder(i as nat));
            }
            let piece = self.type_params[i].resolve_codec_expr(names);
            acc = str_replace_all(acc.as_str(), ph.as_str(), piece.as_str());
            i = i + 1;
        }
        acc
    }

    /// The codec expression with named references resolved by the default
    /// `Archived<Name>` convention.
    pub fn to_codec_expr(&self) -> (r: String)
        ensures
            r@ == ext_codec_expr(self@, Seq::<(Seq<char>, Seq<char>)>::empty()),
    {
        let names = NameMap::new();
        self.resolve_codec_expr(&names)
    }

    /// Substitute each type parameter's target-language type into the type
    /// template.
    pub fn to_ts_type(&self) -> (r: String)
        ensures
            r@ == ext_ts_type(self@),
        decreases self, 1nat,
    {
        let ghost pv = tds_view(self.type_params@);
        let mut acc = self.ts_type.clone();
        let n = self.type_params.len();
        let mut i: usize = 0;
        proof {
            lemma_tds_view_props(self.type_params@);
        }
        while i < n
            invariant
                i <= n,
                n == self.type_params.len(),
                pv == tds_view(self.type_params@),
                pv.len() == n,
                forall|j: int| 0 <= j < n ==> pv[j] == td_view(self.type_params@[j]),
                subst_params_ts(self.ts_type@, pv, 0) == subst_params_ts(acc@, pv, i as nat),
            decreases n - i,
        {
            let mut ph = String::new();
            ph.append("{");
            let num = usize_to_string(i);
            ph.append(num.as_str());
            ph.append("}");
            proof {
                reveal_strlit("{");
                reveal_strlit("}");
                assert(ph@ =~= placeholder(i as nat));
            }
            let piece = self.type_params[i].to_ts_type();
            acc = str_replace_all(acc.as_str(), ph.as_str(), piece.as_str());
            i = i + 1;
        }
        acc
    }
}

impl TypeDef {
    /// The codec expression for this type, resolving named references
    /// through `names`.
    pub fn resolve_codec_expr(&self, names: &NameMap) -> (r: String)
        ensures
            r@ == codec_expr(self@, names@),
        decreases self, 2nat,
    {
        match self {
            TypeDef::U8 => "r.u8".to_owned(),
            TypeDef::I8 => "r.i8".to_owned(),
            TypeDef::U16 => "r.u16".to_owned(),
            TypeDef::I16 => "r.i16".to_owned(),
            TypeDef::U32 => "r.u32".to_owned(),
            TypeDef::I32 => "r.i32".to_owned(),
            TypeDef::U64 => "r.u64".to_owned(),
            TypeDef::I64 => "r.i64".to_owned(),
            TypeDef::F32 => "r.f32".to_owned(),
            TypeDef::F64 => "r.f64".to_owned(),
            TypeDef::Bool => "r.bool".to_owned(),
            TypeDef::Char => "r.char".to_owned(),
            TypeDef::Unit => "r.unit".to_owned(),
            TypeDef::Text => "r.string".to_owned(),
            TypeDef::List(inner) => {
                let mut out = "r.vec(".to_owned();
                let ie = (&**inner).resolve_codec_expr(names);
                out.append(ie.as_str());
                out.append(")");
                out
            },
            TypeDef::Optional(inner) => {
                let mut out = "r.option(".to_owned();
                let ie = (&**inner).resolve_codec_expr(names);
                out.append(ie.as_str());
                out.append(")");
                out
            },
            TypeDef::Boxed(inner) => {
                let mut out = "r.box(".to_owned();
                let ie = (&**inner).resolve_codec_expr(names);
                out.append(ie.as_str());
                out.append(")");
                out
            },
            TypeDef::Array(inner, n) => {
                let mut out = "r.array(".to_owned();
                let ie = (&**inner).resolve_codec_expr(names);
                out.append(ie.as_str());
                out.append(", ");
                let num = usize_to_string(*n);
                out.append(num.as_str());
                out.append(")");
                out
            },
            TypeDef::Tuple(elems) => {
                let mut out = "r.tuple(".to_owned();
                let joined = render_codec_list(elems, names);
                out.append(joined.as_str());
                out.append(")");
                out
            },
            TypeDef::Named(name) => names.resolve(name.as_str()),
            TypeDef::External(ext) => ext.resolve_codec_expr(names),
        }
    }

    /// The codec expression with named references resolved by the default
    /// `Archived<Name>` convention.
    pub fn to_codec_expr(&self) -> (r: String)
        ensures
            r@ == codec_expr(self@, Seq::<(Seq<char>, Seq<char>)>::empty()),
    {
        let names = NameMap::new();
        self.resolve_codec_expr(&names)
    }

    /// The target-language type for values decoded by this type.
    pub fn to_ts_type(&self) -> (r: String)
        ensures
            r@ == ts_type(self@),
        decreases self, 2nat,
    {
        match self {
            TypeDef::U8 => "number".to_owned(),
            TypeDef::I8 => "number".to_owned(),
            TypeDef::U16 => "number".to_owned(),
            TypeDef::I16 => "number".to_owned(),
            TypeDef::U32 => "number".to_owned(),
            TypeDef::I32 => "number".to_owned(),
            TypeDef::U64 => "bigint".to_owned(),
            TypeDef::I64 => "bigint".to_owned(),
            TypeDef::F32 => "number".to_owned(),
            TypeDef::F64 => "number".to_owned(),
            TypeDef::Bool => "boolean".to_owned(),
            TypeDef::Char => "string".to_owned(),
            TypeDef::Unit => "null".to_owned(),
            TypeDef::Text => "string".to_owned(),
            TypeDef::List(inner) => {
                let mut out = (&**inner).to_ts_type();
                out.append("[]");
                out
            },
            TypeDef::Optional(inner) => {
                let mut out = (&**inner).to_ts_type();
                out.append(" | null");
                out
            },
            TypeDef::Boxed(inner) => (&**inner).to_ts_type(),
            TypeDef::Array(inner, _n) => {
                let mut out = (&**inner).to_ts_type();
                out.append("[]");
                out
            },
            TypeDef::Tuple(elems) => {
                let mut out = "[".to_owned();
                let joined = render_ts_list(elems);
                out.append(joined.as_str());
                out.append("]");
                out
            },
            TypeDef::Named(name) => name.clone(),
            TypeDef::External(ext) => ext.to_ts_type(),
        }
    }

    /// Append every import this type requires (recursively) to `imports`.
    pub fn collect_imports(&self, imports: &mut Vec<Import>)
        ensures
            imports_view(final(imports)@) == imports_view(old(imports)@) + imports_of(self@),
        decreases self, 2nat,
    {
        match self {
            TypeDef::List(inner) => (&**inner).collect_imports(imports),
            TypeDef::Optional(inner) => (&**inner).collect_imports(imports),
            TypeDef::Boxed(inner) => (&**inner).collect_imports(imports),
            TypeDef::Array(inner, _n) => (&**inner).collect_imports(imports),
            TypeDef::Tuple(elems) => {
                collect_imports_list(elems, imports);
            },
            TypeDef::External(ext) => {
                let ghost entry_iv = imports_view(imports@);
                proof {
                    assert(self@ == TypeDefV::External(ext_view(*ext)));
                    assert(ext_view(*ext).type_params == tds_view(ext.type_params@));
                }
                match &ext.import {
                    Option::Some(im) => {
                        let ghost pre = imports@;
                        let c = im.clone();
                        imports.push(c);
                        proof {
                            assert(imports@.drop_last() =~= pre);
                            assert(imports_view(imports@) =~= entry_iv + seq![im@]);
                            assert(ext_view(*ext).import == Option::Some(im@));
                        }
                        collect_imports_list(&ext.type_params, imports);
                        proof {
                            assert(imports_view(imports@) =~= entry_iv + imports_of(self@));
                        }
                    },
                    Option::None => {
                        proof {
                            assert(entry_iv + Seq::<ImportV>::empty() =~= entry_iv);
                            assert(ext_view(*ext).import is None);
                        }
                        collect_imports_list(&ext.type_params, imports);
                        proof {
                            assert(imports_view(imports@) =~= entry_iv + imports_of(self@));
                        }
                    },
                }
            },
            TypeDef::U8 | TypeDef::I8 | TypeDef::U16 | TypeDef::I16 | TypeDef::U32
                | TypeDef::I32 | TypeDef::U64 | TypeDef::I64 | TypeDef::F32 | TypeDef::F64
                | TypeDef::Bool | TypeDef::Char | TypeDef::Unit | TypeDef::Text
                | TypeDef::Named(_) => {
                proof {
                    assert(imports_of(self@) =~= Seq::<ImportV>::empty());
                    assert(imports_view(imports@) + Seq::<ImportV>::empty() =~= imports_view(
                        imports@,
                    ));
                }
            },
        }
    }

    /// Append the name of every entry this type refers to (recursively) to
    /// `deps`.
    pub fn collect_named_deps(&self, deps: &mut Vec<String>)
        ensures
            strs_view(final(deps)@) == strs_view(old(deps)@) + named_deps_of(self@),
        decreases self, 2nat,
    {
        match self {
            TypeDef::List(inner) => (&**inner).collect_named_deps(deps),
            TypeDef::Optional(inner) => (&**inner).collect_named_deps(deps),
            TypeDef::Boxed(inner) => (&**inner).collect_named_deps(deps),
            TypeDef::Array(inner, _n) => (&**inner).collect_named_deps(deps),
            TypeDef::Tuple(elems) => {
                collect_named_deps_list(elems, deps);
            },
            TypeDef::Named(name) => {
                let ghost pre = deps@;
                deps.push(name.clone());
                proof {
                    assert(deps@.drop_last() =~= pre);
                    assert(strs_view(deps@) =~= strs_view(pre) + seq![name@]);
                }
            },
            TypeDef::External(ext) => {
                proof {
                    assert(self@ == TypeDefV::External(ext_view(*ext)));
                    assert(ext_view(*ext).type_params == tds_view(ext.type_params@));
                }
                collect_named_deps_list(&ext.type_params, deps);
            },
            TypeDef::U8 | TypeDef::I8 | TypeDef::U16 | TypeDef::I16 | TypeDef::U32
                | TypeDef::I32 | TypeDef::U64 | TypeDef::I64 | TypeDef::F32 | TypeDef::F64
                | TypeDef::Bool | TypeDef::Char | TypeDef::Unit | TypeDef::Text => {
                proof {
                    assert(named_deps_of(self@) =~= Seq::<Seq<char>>::empty());
                    assert(strs_view(deps@) + Seq::<Seq<char>>::empty() =~= strs_view(deps@));
                }
            },
        }
    }
}

/// Append the imports of every element of `elems` to `imports`.
fn collect_imports_list(elems: &Vec<TypeDef>, imports: &mut Vec<Import>)
    ensures
        imports_view(final(imports)@) == imports_view(old(imports)@) + imports_of_list(
            tds_view(elems@),
        ),
    decreases elems, 0nat,
{
    let ghost ev = tds_view(elems@);
    let ghost entry_iv = imports_view(old(imports)@);
    let n = elems.len();
    let mut i: usize = 0;
    proof {
        lemma_tds_view_props(elems@);
        assert(ev.take(0) =~= Seq::empty());
        assert(entry_iv + Seq::<ImportV>::empty() =~= entry_iv);
    }
    while i < n
        invariant
            i <= n,
            n == elems.len(),
            ev == tds_view(elems@),
            ev.len() == n,
            forall|j: int| 0 <= j < n ==> ev[j] == td_view(elems@[j]),
            imports_view(imports@) == entry_iv + imports_of_list(ev.take(i as int)),
        decreases n - i,
    {
        elems[i].collect_imports(imports);
        proof {
            assert(ev.take(i + 1).drop_last() =~= ev.take(i as int));
            assert(ev.take(i + 1).last() == ev[i as int]);
        }
        i = i + 1;
    }
    proof {
        assert(ev.take(n as int) =~= ev);
    }
}

/// Append the named dependencies of every element of `elems` to `deps`.
fn collect_named_deps_list(elems: &Vec<TypeDef>, deps: &mut Vec<String>)
    ensures
        strs_view(final(deps)@) == strs_view(old(deps)@) + named_deps_of_list(tds_view(elems@)),
    decreases elems, 0nat,
{
    let ghost ev = tds_view(elems@);
    let ghost entry_sv = strs_view(old(deps)@);
    let n = elems.len();
    let mut i: usize = 0;
    proof {
        lemma_tds_view_props(elems@);
        assert(ev.take(0) =~= Seq::empty());
        assert(entry_sv + Seq::<Seq<char>>::empty() =~= entry_sv);
    }
    while i < n
        invariant
            i <= n,
            n == elems.len(),
            ev == tds_view(elems@),
            ev.len() == n,
            forall|j: int| 0 <= j < n ==> ev[j] == td_view(elems@[j]),
            strs_view(deps@) == entry_sv + named_deps_of_list(ev.take(i as int)),
        decreases n - i,
    {
        elems[i].collect_named_deps(deps);
        proof {
            assert(ev.take(i + 1).drop_last() =~= ev.take(i as int));
            assert(ev.take(i + 1).last() == ev[i as int]);
        }
        i = i + 1;
    }
    proof {
        assert(ev.take(n as int) =~= ev);
    }
}


/// Render the codec expressions of `elems`, joined by `", "`.
fn render_codec_list(elems: &Vec<TypeDef>, names: &NameMap) -> (r: String)
    ensures
        r@ == codec_expr_list(tds_view(elems@), names@),
    decreases elems, 3nat,
{
    let ghost ev = tds_view(elems@);
    let mut out = String::new();
    let n = elems.len();
    let mut i: usize = 0;
    proof {
        lemma_tds_view_props(elems@);
        assert(ev.take(0) =~= Seq::empty());
        assert(Seq::<char>::empty() + codec_expr_list(ev.take(0), names@) =~= Seq::<
            char,
        >::empty());
    }
    while i < n
        invariant
            i <= n,
            n == elems.len(),
            ev == tds_view(elems@),
            ev.len() == n,
            forall|j: int| 0 <= j < n ==> ev[j] == td_view(elems@[j]),
            out@ == codec_expr_list(ev.take(i as int), names@),
        decreases n - i,
    {
        let piece = elems[i].resolve_codec_expr(names);
        if i > 0 {
            out.append(", ");
        }
        out.append(piece.as_str());
        proof {
            assert(ev.take(i + 1).drop_last() =~= ev.take(i as int));
            assert(ev.take(i + 1).last() == ev[i as int]);
            if i == 0 {
                assert(codec_expr_list(ev.take(1), names@) == codec_expr(ev[0], names@));
                assert(Seq::<char>::empty() + codec_expr(ev[0], names@) =~= codec_expr(
                    ev[0],
                    names@,
                ));
            }
        }
        i = i + 1;
    }
    proof {
        assert(ev.take(n as int) =~= ev);
    }
    out
}

/// Render the target-language types of `elems`, joined by `", "`.
fn render_ts_list(elems: &Vec<TypeDef>) -> (r: String)
    ensures
        r@ == ts_type_list(tds_view(elems@)),
    decreases elems, 3nat,
{
    let ghost ev = tds_view(elems@);
    let mut out = String::new();
    let n = elems.len();
    let mut i: usize = 0;
    proof {
        lemma_tds_view_props(elems@);
        assert(ev.take(0) =~= Seq::empty());
    }
    while i < n
        invariant
            i <= n,
            n == elems.len(),
            ev == tds_view(elems@),
            ev.len() == n,
            forall|j: int| 0 <= j < n ==> ev[j] == td_view(elems@[j]),
            out@ == ts_type_list(ev.take(i as int)),
        decreases n - i,
    {
        let piece = elems[i].to_ts_type();
        if i > 0 {
            out.append(", ");
        }
        out.append(piece.as_str());
        proof {
            assert(ev.take(i + 1).drop_last() =~= ev.take(i as int));
            assert(ev.take(i + 1).last() == ev[i as int]);
            if i == 0 {
                assert(ts_type_list(ev.take(1)) == ts_type(ev[0]));
                assert(Seq::<char>::empty() + ts_type(ev[0]) =~= ts_type(ev[0]));
            }
        }
        i = i + 1;
    }
    proof {
        assert(ev.take(n as int) =~= ev);
    }
    out
}

impl Import {
    /// Build an import of `export_name` from `module`.
    pub fn new(module: &str, export_name: &str) -> (r: Import)
        ensures
            r@ == (ImportV { module: module@, export_name: export_name@ }),
    {
        Import { module: module.to_owned(), export_name: export_name.to_owned() }
    }
}


// ------------------------------------------------------------------
// Enum and union variants
// ------------------------------------------------------------------

/// One variant of a schema enum.
#[derive(Debug)]
pub enum EnumVariant {
    /// A variant without fields.
    Unit(String),
    /// A variant with positional fields.
    Tuple(String, Vec<TypeDef>),
    /// A variant with named fields.
    Struct(String, Vec<(String, TypeDef)>),
}

/// Ghost model of an [`EnumVariant`].
pub enum EnumVariantV {
    Unit(Seq<char>),
    Tuple(Seq<char>, Seq<TypeDefV>),
    Struct(Seq<char>, Seq<(Seq<char>, TypeDefV)>),
}

pub open spec fn fields_view(s: Seq<(String, TypeDef)>) -> Seq<(Seq<char>, TypeDefV)>
    decreases s,
{
    if s.len() == 0 {
        Seq::empty()
    } else {
        fields_view(s.drop_last()).push((s.last().0@, td_view(s.last().1)))
    }
}

pub proof fn lemma_fields_view_props(s: Seq<(String, TypeDef)>)
    ensures
        fields_view(s).len() == s.len(),
        forall|i: int|
            0 <= i < s.len() ==> fields_view(s)[i] == (s[i].0@, td_view(s[i].1)),
    decreases s,
{
    if s.len() > 0 {
        lemma_fields_view_props(s.drop_last());
    }
}

impl View for EnumVariant {
    type V = EnumVariantV;

    open spec fn view(&self) -> EnumVariantV {
        match *self {
            EnumVariant::Unit(ref name) => EnumVariantV::Unit(name@),
            EnumVariant::Tuple(ref name, ref tys) => EnumVariantV::Tuple(name@, tds_view(tys@)),
            EnumVariant::Struct(ref name, ref fields) => EnumVariantV::Struct(
                name@,
                fields_view(fields@),
            ),
        }
    }
}

/// The declared name of a variant.
pub open spec fn variant_name(v: EnumVariantV) -> Seq<char> {
    match v {
        EnumVariantV::Unit(name) => name,
        EnumVariantV::Tuple(name, _) => name,
        EnumVariantV::Struct(name, _) => name,
    }
}

impl EnumVariant {
    /// The declared name of this variant.
    pub fn name(&self) -> (r: &str)
        ensures
            r@ == variant_name(self@),
    {
        match self {
            EnumVariant::Unit(name) => name.as_str(),
            EnumVariant::Tuple(name, _) => name.as_str(),
            EnumVariant::Struct(name, _) => name.as_str(),
        }
    }
}

/// Clone a list of named fields, preserving its view.
pub fn clone_fields(v: &Vec<(String, TypeDef)>) -> (r: Vec<(String, TypeDef)>)
    ensures
        fields_view(r@) == fields_view(v@),
{
    let n = v.len();
    let mut out: Vec<(String, TypeDef)> = Vec::new();
    proof {
        lemma_fields_view_props(v@);
        assert(v@.take(0) =~= Seq::empty());
    }
    let mut i: usize = 0;
    while i < n
        invariant
            i <= n,
            n == v.len(),
            out@.len() == i,
            fields_view(out@) == fields_view(v@.take(i as int)),
            forall|j: int|
                0 <= j < v@.len() ==> fields_view(v@)[j] == (v@[j].0@, td_view(v@[j].1)),
        decreases n - i,
    {
        let ghost old_out = out@;
        let name = v[i].0.clone();
        let ty = v[i].1.clone();
        out.push((name, ty));
        proof {
            assert(out@.drop_last() =~= old_out);
            assert(v@.take(i + 1).drop_last() =~= v@.take(i as int));
            assert(v@.take(i + 1).last() == v@[i as int]);
            lemma_fields_view_props(v@.take(i + 1));
        }
        i = i + 1;
    }
    proof {
        assert(v@.take(n as int) =~= v@);
    }
    out
}

impl Clone for EnumVariant {
    fn clone(&self) -> (r: Self)
        ensures
            r@ == self@,
    {
        match self {
            EnumVariant::Unit(name) => EnumVariant::Unit(name.clone()),
            EnumVariant::Tuple(name, tys) => EnumVariant::Tuple(name.clone(), clone_tds(tys)),
            EnumVariant::Struct(name, fields) => EnumVariant::Struct(
                name.clone(),
                clone_fields(fields),
            ),
        }
    }
}

/// One variant of a schema union.  Unlike enum variants, union variants
/// carry no discriminant: every variant describes the same storage.
#[derive(Debug)]
pub struct UnionVariant {
    /// The name used to access this variant.
    pub name: String,
    /// The type of this variant.
    pub ty: TypeDef,
}

/// Ghost model of a [`UnionVariant`].
pub struct UnionVariantV {
    pub name: Seq<char>,
    pub ty: TypeDefV,
}

impl View for UnionVariant {
    type V = UnionVariantV;

    open spec fn view(&self) -> UnionVariantV {
        UnionVariantV { name: self.name@, ty: td_view(self.ty) }
    }
}

impl UnionVariant {
    /// Build a union variant named `name` of type `ty`.
    pub fn new(name: &str, ty: TypeDef) -> (r: UnionVariant)
        ensures
            r@ == (UnionVariantV { name: name@, ty: ty@ }),
    {
        UnionVariant { name: name.to_owned(), ty }
    }
}

impl Clone for UnionVariant {
    fn clone(&self) -> (r: Self)
        ensures
            r@ == self@,
    {
        UnionVariant { name: self.name.clone(), ty: self.ty.clone() }
    }
}


// ------------------------------------------------------------------
// The merged import block
// ------------------------------------------------------------------

/// The module of every import, in encounter order, duplicates kept.
pub open spec fn modules_of(ims: Seq<ImportV>) -> Seq<Seq<char>>
    decreases ims.len(),
{
    if ims.len() == 0 {
        Seq::empty()
    } else {
        modules_of(ims.drop_last()).push(ims.last().module)
    }
}

/// The export names of the imports from module `m`, in encounter order.
pub open spec fn exports_for(ims: Seq<ImportV>, m: Seq<char>) -> Seq<Seq<char>>
    decreases ims.len(),
{
    if ims.len() == 0 {
        Seq::empty()
    } else if ims.last().module == m {
        exports_for(ims.drop_last(), m).push(ims.last().export_name)
    } else {
        exports_for(ims.drop_last(), m)
    }
}

/// The pieces of `s` joined by `", "`.
pub open spec fn join_comma(s: Seq<Seq<char>>) -> Seq<char>
    decreases s.len(),
{
    if s.len() == 0 {
        Seq::empty()
    } else if s.len() == 1 {
        s[0]
    } else {
        join_comma(s.drop_last()) + ", "@ + s.last()
    }
}

/// The import statement for module `m`: its distinct export names, sorted,
/// on one line.
pub open spec fn import_line(ims: Seq<ImportV>, m: Seq<char>) -> Seq<char> {
    "import { "@ + join_comma(sort_uniq(exports_for(ims, m))) + " } from '"@ + m + "';
"@
}

/// The import statements for the given modules, in order.
pub open spec fn import_lines(mods: Seq<Seq<char>>, ims: Seq<ImportV>) -> Seq<char>
    decreases mods.len(),
{
    if mods.len() == 0 {
        Seq::empty()
    } else {
        import_lines(mods.drop_last(), ims) + import_line(ims, mods.last())
    }
}

/// The merged import block for `ims`: one line per distinct module, sorted
/// by module path, each listing that module's distinct exports, sorted.
pub open spec fn import_block_body(ims: Seq<ImportV>) -> Seq<char> {
    import_lines(sort_uniq(modules_of(ims)), ims)
}

/// Render the import statements for the given set of imports: one statement
/// per distinct module, modules sorted by path, each statement listing the
/// module's exports sorted and deduplicated.
pub fn generate_imports(imports: &Vec<Import>) -> (r: String)
    ensures
        r@ == import_block_body(imports_view(imports@)),
{
    let ghost iv = imports_view(imports@);
    let n = imports.len();
    proof {
        lemma_imports_view_props(imports@);
    }
    // Distinct module paths, sorted.
    let mut mods: Vec<String> = Vec::new();
    let mut i: usize = 0;
    proof {
        assert(iv.take(0) =~= Seq::empty());
        assert(strs_view(mods@) =~= sort_uniq(modules_of(iv.take(0))));
    }
    while i < n
        invariant
            i <= n,
            n == imports.len(),
            iv == imports_view(imports@),
            iv.len() == n,
            forall|j: int| 0 <= j < n ==> iv[j] == imports@[j]@,
            strs_view(mods@) == sort_uniq(modules_of(iv.take(i as int))),
        decreases n - i,
    {
        crate::strutil::insert_uniq_exec(&mut mods, imports[i].module.as_str());
        proof {
            assert(iv.take(i + 1).drop_last() =~= iv.take(i as int));
            assert(iv.take(i + 1).last() == iv[i as int]);
            assert(modules_of(iv.take(i + 1)).drop_last() =~= modules_of(iv.take(i as int)));
        }
        i = i + 1;
    }
    proof {
        assert(iv.take(n as int) =~= iv);
    }
    let ghost mv = strs_view(mods@);
    // One line per module.
    let mut out = String::new();
    let m_count = mods.len();
    let mut k: usize = 0;
    proof {
        lemma_strs_view_props(mods@);
        assert(mv.take(0) =~= Seq::empty());
        assert(Seq::<char>::empty() =~= import_lines(mv.take(0), iv));
    }
    while k < m_count
        invariant
            k <= m_count,
            m_count == mods.len(),
            n == imports.len(),
            iv == imports_view(imports@),
            iv.len() == n,
            forall|j: int| 0 <= j < n ==> iv[j] == imports@[j]@,
            mv == strs_view(mods@),
            mv.len() == m_count,
            forall|j: int| 0 <= j < m_count ==> mv[j] == mods@[j]@,
            out@ == import_lines(mv.take(k as int), iv),
        decreases m_count - k,
    {
        let m = &mods[k];
        // Distinct exports of module `m`, sorted.
        let mut exps: Vec<String> = Vec::new();
        let mut j: usize = 0;
        proof {
            assert(iv.take(0) =~= Seq::empty());
            assert(strs_view(exps@) =~= sort_uniq(exports_for(iv.take(0), mv[k as int])));
        }
        while j < n
            invariant
                j <= n,
                n == imports.len(),
                iv == imports_view(imports@),
                iv.len() == n,
                forall|jj: int| 0 <= jj < n ==> iv[jj] == imports@[jj]@,
                m@ == mv[k as int],
                k < m_count,
                mv == strs_view(mods@),
                strs_view(exps@) == sort_uniq(exports_for(iv.take(j as int), mv[k as int])),
            decreases n - j,
        {
            proof {
                assert(iv.take(j + 1).drop_last() =~= iv.take(j as int));
                assert(iv.take(j + 1).last() == iv[j as int]);
            }
            if crate::strutil::str_eq(imports[j].module.as_str(), m.as_str()) {
                crate::strutil::insert_uniq_exec(&mut exps, imports[j].export_name.as_str());
                proof {
                    assert(exports_for(iv.take(j + 1), mv[k as int]).drop_last()
                        =~= exports_for(iv.take(j as int), mv[k as int]));
                }
            }
            j = j + 1;
        }
        proof {
            assert(iv.take(n as int) =~= iv);
        }
        // Join the exports and render the line.
        let ghost ev = strs_view(exps@);
        let mut joined = String::new();
        let e_count = exps.len();
        let mut t: usize = 0;
        proof {
            lemma_strs_view_props(exps@);
            assert(ev.take(0) =~= Seq::empty());
            assert(Seq::<char>::empty() =~= join_comma(ev.take(0)));
        }
        while t < e_count
            invariant
                t <= e_count,
                e_count == exps.len(),
                ev == strs_view(exps@),
                ev.len() == e_count,
                forall|jj: int| 0 <= jj < e_count ==> ev[jj] == exps@[jj]@,
                joined@ == join_comma(ev.take(t as int)),
            decreases e_count - t,
        {
            if t > 0 {
                joined.append(", ");
            }
            joined.append(exps[t].as_str());
            proof {
                assert(ev.take(t + 1).drop_last() =~= ev.take(t as int));
                assert(ev.take(t + 1).last() == ev[t as int]);
                if t == 0 {
                    assert(join_comma(ev.take(1)) == ev[0]);
                    assert(Seq::<char>::empty() + ev[0] =~= ev[0]);
                }
            }
            t = t + 1;
        }
        proof {
            assert(ev.take(e_count as int) =~= ev);
        }
        out.append("import { ");
        out.append(joined.as_str());
        out.append(" } from '");
        out.append(m.as_str());
        out.append("';
");
        proof {
            assert(mv.take(k + 1).drop_last() =~= mv.take(k as int));
            assert(mv.take(k + 1).last() == mv[k as int]);
        }
        k = k + 1;
    }
    proof {
        assert(mv.take(m_count as int) =~= mv);
    }
    out
}

} // verus!
