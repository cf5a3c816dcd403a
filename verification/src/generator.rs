//! The code generator: an entry table, a registry, and the deterministic
//! emitter that renders entries in dependency order.

use vstd::prelude::*;

use crate::registry::{reg_remove, TypeMapping, TypeMappingV, TypeRegistry};
use crate::strutil::{
    lemma_lex_lt_asymmetric, lemma_lex_lt_total, lex_lt, str_eq, str_lex_lt, strs_view,
};
use crate::types::{
    fields_view, lemma_fields_view_props, named_deps_of, named_deps_of_list, tds_view,
    EnumVariant, EnumVariantV, Import, TypeDef, TypeDefV, UnionVariant, UnionVariantV,
};

verus! {

// ------------------------------------------------------------------
// Entries
// ------------------------------------------------------------------

/// The kind-specific data of one entry.
#[derive(Debug)]
pub enum TypeKind {
    /// An ordered list of named fields.
    Struct(Vec<(String, TypeDef)>),
    /// An ordered list of variants.
    Enum(Vec<EnumVariant>),
    /// An ordered list of overlapping variants.
    Union(Vec<UnionVariant>),
    /// A single target type.
    Alias(TypeDef),
}

/// Ghost model of a [`TypeKind`].
pub enum TypeKindV {
    Struct(Seq<(Seq<char>, TypeDefV)>),
    Enum(Seq<EnumVariantV>),
    Union(Seq<UnionVariantV>),
    Alias(TypeDefV),
}

/// One schema-visible type: its unique name, an optional custom output
/// name, and its kind.
#[derive(Debug)]
pub struct TypeEntry {
    /// The declared type name.
    pub name: String,
    /// A custom output name; `Archived<Name>` is used when absent.
    pub archived_name: Option<String>,
    /// The kind-specific data.
    pub kind: TypeKind,
}

/// Ghost model of a [`TypeEntry`].
pub struct TypeEntryV {
    pub name: Seq<char>,
    pub archived_name: Option<Seq<char>>,
    pub kind: TypeKindV,
}

pub open spec fn variants_view(s: Seq<EnumVariant>) -> Seq<EnumVariantV>
    decreases s,
{
    if s.len() == 0 {
        Seq::empty()
    } else {
        variants_view(s.drop_last()).push(s.last()@)
    }
}

pub proof fn lemma_variants_view_props(s: Seq<EnumVariant>)
    ensures
        variants_view(s).len() == s.len(),
        forall|i: int| 0 <= i < s.len() ==> variants_view(s)[i] == s[i]@,
    decreases s,
{
    if s.len() > 0 {
        lemma_variants_view_props(s.drop_last());
    }
}

pub open spec fn uvariants_view(s: Seq<UnionVariant>) -> Seq<UnionVariantV>
    decreases s,
{
    if s.len() == 0 {
        Seq::empty()
    } else {
        uvariants_view(s.drop_last()).push(s.last()@)
    }
}

pub proof fn lemma_uvariants_view_props(s: Seq<UnionVariant>)
    ensures
        uvariants_view(s).len() == s.len(),
        forall|i: int| 0 <= i < s.len() ==> uvariants_view(s)[i] == s[i]@,
    decreases s,
{
    if s.len() > 0 {
        lemma_uvariants_view_props(s.drop_last());
    }
}

impl View for TypeKind {
    type V = TypeKindV;

    open spec fn view(&self) -> TypeKindV {
        match *self {
            TypeKind::Struct(ref fields) => TypeKindV::Struct(fields_view(fields@)),
            TypeKind::Enum(ref vs) => TypeKindV::Enum(variants_view(vs@)),
            TypeKind::Union(ref vs) => TypeKindV::Union(uvariants_view(vs@)),
            TypeKind::Alias(ref t) => TypeKindV::Alias(t@),
        }
    }
}

impl View for TypeEntry {
    type V = TypeEntryV;

    open spec fn view(&self) -> TypeEntryV {
        TypeEntryV {
            name: self.name@,
            archived_name: match self.archived_name {
                Option::Some(ref a) => Option::Some(a@),
                Option::None => Option::None,
            },
            kind: self.kind@,
        }
    }
}

pub open spec fn entries_view(s: Seq<TypeEntry>) -> Seq<TypeEntryV>
    decreases s,
{
    if s.len() == 0 {
        Seq::empty()
    } else {
        entries_view(s.drop_last()).push(s.last()@)
    }
}

pub proof fn lemma_entries_view_props(s: Seq<TypeEntry>)
    ensures
        entries_view(s).len() == s.len(),
        forall|i: int| 0 <= i < s.len() ==> entries_view(s)[i] == s[i]@,
    decreases s,
{
    if s.len() > 0 {
        lemma_entries_view_props(s.drop_last());
    }
}

/// The output identifier an entry emits under: its custom name, or the
/// `Archived<Name>` convention.
pub open spec fn entry_archived(e: TypeEntryV) -> Seq<char> {
    match e.archived_name {
        Option::Some(a) => a,
        Option::None => "Archived"@ + e.name,
    }
}

impl TypeEntry {
    /// The output identifier this entry emits under.
    pub fn archived_name_or_default(&self) -> (r: String)
        ensures
            r@ == entry_archived(self@),
    {
        match &self.archived_name {
            Option::Some(a) => a.clone(),
            Option::None => {
                let mut r = "Archived".to_owned();
                r.append(self.name.as_str());
                r
            },
        }
    }
}

// ------------------------------------------------------------------
// Entry dependencies
// ------------------------------------------------------------------

pub open spec fn fields_deps(fields: Seq<(Seq<char>, TypeDefV)>) -> Seq<Seq<char>>
    decreases fields.len(),
{
    if fields.len() == 0 {
        Seq::empty()
    } else {
        fields_deps(fields.drop_last()) + named_deps_of(fields.last().1)
    }
}

pub open spec fn variant_deps(v: EnumVariantV) -> Seq<Seq<char>> {
    match v {
        EnumVariantV::Unit(_) => Seq::empty(),
        EnumVariantV::Tuple(_, tys) => named_deps_of_list(tys),
        EnumVariantV::Struct(_, fields) => fields_deps(fields),
    }
}

pub open spec fn variants_deps(vs: Seq<EnumVariantV>) -> Seq<Seq<char>>
    decreases vs.len(),
{
    if vs.len() == 0 {
        Seq::empty()
    } else {
        variants_deps(vs.drop_last()) + variant_deps(vs.last())
    }
}

pub open spec fn uvariants_deps(vs: Seq<UnionVariantV>) -> Seq<Seq<char>>
    decreases vs.len(),
{
    if vs.len() == 0 {
        Seq::empty()
    } else {
        uvariants_deps(vs.drop_last()) + named_deps_of(vs.last().ty)
    }
}

/// The names of all entries an entry's fields or variants refer to.
pub open spec fn entry_deps(e: TypeEntryV) -> Seq<Seq<char>> {
    match e.kind {
        TypeKindV::Struct(fields) => fields_deps(fields),
        TypeKindV::Enum(vs) => variants_deps(vs),
        TypeKindV::Union(vs) => uvariants_deps(vs),
        TypeKindV::Alias(t) => named_deps_of(t),
    }
}

// ------------------------------------------------------------------
// The sorted entry table
// ------------------------------------------------------------------

/// Whether entries are strictly sorted by name (hence names are unique).
pub open spec fn entries_sorted(s: Seq<TypeEntryV>) -> bool {
    forall|i: int, j: int| 0 <= i < j < s.len() ==> lex_lt(s[i].name, s[j].name)
}

/// Insert an entry into a sorted table, replacing any entry of the same
/// name (last write wins).
pub open spec fn entry_insert(s: Seq<TypeEntryV>, e: TypeEntryV) -> Seq<TypeEntryV>
    decreases s.len(),
{
    if s.len() == 0 {
        seq![e]
    } else if s[0].name == e.name {
        seq![e] + s.skip(1)
    } else if lex_lt(e.name, s[0].name) {
        seq![e] + s
    } else {
        seq![s[0]] + entry_insert(s.skip(1), e)
    }
}

/// Inserting into a sorted table keeps it sorted, keeps every other entry,
/// and makes the new entry a member.
pub proof fn lemma_entry_insert_sorted(s: Seq<TypeEntryV>, e: TypeEntryV)
    requires
        entries_sorted(s),
    ensures
        entries_sorted(entry_insert(s, e)),
        entry_insert(s, e).contains(e),
        forall|x: TypeEntryV|
            entry_insert(s, e).contains(x) ==> x == e || (s.contains(x) && x.name != e.name),
        forall|x: TypeEntryV|
            s.contains(x) && x.name != e.name ==> entry_insert(s, e).contains(x),
    decreases s.len(),
{
    let r = entry_insert(s, e);
    if s.len() == 0 {
        assert(r =~= seq![e]);
        assert(r[0] == e);
    } else if s[0].name == e.name {
        assert(r =~= seq![e] + s.skip(1));
        assert(r[0] == e);
        assert forall|i: int, j: int| 0 <= i < j < r.len() implies lex_lt(
            r[i].name,
            r[j].name,
        ) by {
            if i == 0 {
                assert(r[j] == s[j]);
            } else {
                assert(r[i] == s[i]);
                assert(r[j] == s[j]);
            }
        }
        assert forall|x: TypeEntryV| r.contains(x) implies x == e || (s.contains(x) && x.name
            != e.name) by {
            let i = choose|i: int| 0 <= i < r.len() && r[i] == x;
            if i > 0 {
                assert(r[i] == s[i]);
                assert(s.contains(x));
                assert(lex_lt(s[0].name, s[i].name));
                lemma_lex_lt_asymmetric(s[0].name, s[i].name);
            }
        }
        assert forall|x: TypeEntryV| s.contains(x) && x.name != e.name implies r.contains(
            x,
        ) by {
            let i = choose|i: int| 0 <= i < s.len() && s[i] == x;
            assert(i != 0);
            assert(r[i] == x);
        }
    } else if lex_lt(e.name, s[0].name) {
        assert(r =~= seq![e] + s);
        assert(r[0] == e);
        assert forall|i: int, j: int| 0 <= i < j < r.len() implies lex_lt(
            r[i].name,
            r[j].name,
        ) by {
            if i == 0 {
                assert(r[j] == s[j - 1]);
                if j > 1 {
                    crate::strutil::lemma_lex_lt_transitive(
                        e.name,
                        s[0].name,
                        s[j - 1].name,
                    );
                }
            } else {
                assert(r[i] == s[i - 1]);
                assert(r[j] == s[j - 1]);
            }
        }
        assert forall|x: TypeEntryV| r.contains(x) implies x == e || (s.contains(x) && x.name
            != e.name) by {
            let i = choose|i: int| 0 <= i < r.len() && r[i] == x;
            if i > 0 {
                assert(r[i] == s[i - 1]);
                assert(s.contains(x));
                if i == 1 {
                    lemma_lex_lt_asymmetric(e.name, s[0].name);
                } else {
                    crate::strutil::lemma_lex_lt_transitive(
                        e.name,
                        s[0].name,
                        s[i - 1].name,
                    );
                    lemma_lex_lt_asymmetric(e.name, s[i - 1].name);
                }
            }
        }
        assert forall|x: TypeEntryV| s.contains(x) && x.name != e.name implies r.contains(
            x,
        ) by {
            let i = choose|i: int| 0 <= i < s.len() && s[i] == x;
            assert(r[i + 1] == x);
        }
    } else {
        let tail = s.skip(1);
        assert(entries_sorted(tail)) by {
            assert forall|i: int, j: int| 0 <= i < j < tail.len() implies lex_lt(
                tail[i].name,
                tail[j].name,
            ) by {
                assert(tail[i] == s[i + 1]);
                assert(tail[j] == s[j + 1]);
            }
        }
        lemma_entry_insert_sorted(tail, e);
        let rt = entry_insert(tail, e);
        assert(r =~= seq![s[0]] + rt);
        lemma_lex_lt_total(e.name, s[0].name);
        // here: lex_lt(s[0].name, e.name)
        assert forall|i: int, j: int| 0 <= i < j < r.len() implies lex_lt(
            r[i].name,
            r[j].name,
        ) by {
            if i == 0 {
                assert(r[j] == rt[j - 1]);
                assert(rt.contains(rt[j - 1]));
                if rt[j - 1] == e {
                    assert(lex_lt(s[0].name, e.name));
                } else {
                    assert(tail.contains(rt[j - 1]));
                    let k = choose|k: int| 0 <= k < tail.len() && tail[k] == rt[j - 1];
                    assert(tail[k] == s[k + 1]);
                    assert(lex_lt(s[0].name, s[k + 1].name));
                }
            } else {
                assert(r[i] == rt[i - 1]);
                assert(r[j] == rt[j - 1]);
            }
        }
        assert forall|x: TypeEntryV| r.contains(x) implies x == e || (s.contains(x) && x.name
            != e.name) by {
            let i = choose|i: int| 0 <= i < r.len() && r[i] == x;
            if i == 0 {
                assert(x == s[0]);
                assert(s.contains(x));
                assert(lex_lt(s[0].name, e.name));
                lemma_lex_lt_asymmetric(s[0].name, e.name);
            } else {
                assert(r[i] == rt[i - 1]);
                assert(rt.contains(x));
                if x != e {
                    assert(tail.contains(x));
                    let k = choose|k: int| 0 <= k < tail.len() && tail[k] == x;
                    assert(s[k + 1] == x);
                    assert(s.contains(x));
                }
            }
        }
        assert(rt.contains(e));
        let ke = choose|k: int| 0 <= k < rt.len() && rt[k] == e;
        assert(r[ke + 1] == e);
        assert(r.contains(e));
        assert forall|x: TypeEntryV| s.contains(x) && x.name != e.name implies r.contains(
            x,
        ) by {
            let i = choose|i: int| 0 <= i < s.len() && s[i] == x;
            if i == 0 {
                assert(r[0] == x);
            } else {
                assert(tail[i - 1] == x);
                assert(tail.contains(x));
                assert(rt.contains(x));
                let k = choose|k: int| 0 <= k < rt.len() && rt[k] == x;
                assert(r[k + 1] == x);
            }
        }
    }
}


/// The view of a list of string slices.
pub open spec fn refs_view(s: Seq<&str>) -> Seq<Seq<char>>
    decreases s,
{
    if s.len() == 0 {
        Seq::empty()
    } else {
        refs_view(s.drop_last()).push(s.last()@)
    }
}

pub proof fn lemma_refs_view_props(s: Seq<&str>)
    ensures
        refs_view(s).len() == s.len(),
        forall|i: int| 0 <= i < s.len() ==> refs_view(s)[i] == s[i]@,
    decreases s,
{
    if s.len() > 0 {
        lemma_refs_view_props(s.drop_last());
    }
}

/// The view of a list of borrowed named fields.
pub open spec fn ref_fields_view(s: Seq<(&str, TypeDef)>) -> Seq<(Seq<char>, TypeDefV)>
    decreases s,
{
    if s.len() == 0 {
        Seq::empty()
    } else {
        ref_fields_view(s.drop_last()).push((s.last().0@, s.last().1@))
    }
}

pub proof fn lemma_ref_fields_view_props(s: Seq<(&str, TypeDef)>)
    ensures
        ref_fields_view(s).len() == s.len(),
        forall|i: int|
            0 <= i < s.len() ==> ref_fields_view(s)[i] == (s[i].0@, s[i].1@),
    decreases s,
{
    if s.len() > 0 {
        lemma_ref_fields_view_props(s.drop_last());
    }
}

/// The entry-list view distributes over concatenation.
pub proof fn lemma_entries_view_of_concat(a: Seq<TypeEntry>, b: Seq<TypeEntry>)
    ensures
        entries_view(a + b) == entries_view(a) + entries_view(b),
    decreases b.len(),
{
    if b.len() == 0 {
        assert(a + b =~= a);
        assert(entries_view(a) + entries_view(b) =~= entries_view(a));
    } else {
        lemma_entries_view_of_concat(a, b.drop_last());
        assert((a + b).drop_last() =~= a + b.drop_last());
        assert((a + b).last() == b.last());
        assert(entries_view(a) + entries_view(b) =~= (entries_view(a) + entries_view(
            b.drop_last(),
        )).push(b.last()@));
    }
}

/// Insert `entry` into the sorted table `entries`, replacing any entry of
/// the same name.
fn insert_entry(entries: &mut Vec<TypeEntry>, entry: TypeEntry)
    ensures
        entries_view(final(entries)@) == entry_insert(entries_view(old(entries)@), entry@),
{
    let ghost pre = entries_view(entries@);
    let n = entries.len();
    let mut i: usize = 0;
    proof {
        lemma_entries_view_props(entries@);
        assert(pre.take(0) =~= Seq::empty());
        assert(pre.skip(0) =~= pre);
        assert(pre.take(0) + entry_insert(pre.skip(0), entry@) =~= entry_insert(pre, entry@));
    }
    while i < n && str_lex_lt(entries[i].name.as_str(), entry.name.as_str())
        invariant
            i <= n,
            n == entries.len(),
            pre == entries_view(entries@),
            pre.len() == n,
            forall|j: int| 0 <= j < n ==> pre[j] == entries@[j]@,
            entry_insert(pre, entry@) == pre.take(i as int) + entry_insert(
                pre.skip(i as int),
                entry@,
            ),
        decreases n - i,
    {
        proof {
            lemma_lex_lt_asymmetric(pre[i as int].name, entry@.name);
            assert(pre.skip(i as int)[0] == pre[i as int]);
            assert(pre.skip(i as int).skip(1) =~= pre.skip(i + 1));
            assert(pre.take(i + 1).drop_last() =~= pre.take(i as int));
            assert(entry_insert(pre.skip(i as int), entry@) == seq![pre[i as int]]
                + entry_insert(pre.skip(i + 1), entry@));
            assert(pre.take(i as int) + (seq![pre[i as int]] + entry_insert(
                pre.skip(i + 1),
                entry@,
            )) =~= pre.take(i + 1) + entry_insert(pre.skip(i + 1), entry@));
        }
        i = i + 1;
    }
    let ghost pre_exec = entries@;
    if i < n && str_eq(entries[i].name.as_str(), entry.name.as_str()) {
        proof {
            assert(pre.skip(i as int)[0] == pre[i as int]);
            assert(entry_insert(pre.skip(i as int), entry@) == seq![entry@] + pre.skip(i + 1));
        }
        let _ = entries.remove(i);
        entries.insert(i, entry);
        proof {
            assert(entries@ =~= pre_exec.take(i as int) + (seq![entry] + pre_exec.skip(i + 1)));
            lemma_entries_view_of_concat(
                pre_exec.take(i as int),
                seq![entry] + pre_exec.skip(i + 1),
            );
            lemma_entries_view_of_concat(seq![entry], pre_exec.skip(i + 1));
            lemma_entries_view_props(pre_exec.take(i as int));
            lemma_entries_view_props(pre_exec.skip(i + 1));
            lemma_entries_view_props(seq![entry]);
            assert(entries_view(pre_exec.take(i as int)) =~= pre.take(i as int));
            assert(entries_view(pre_exec.skip(i + 1)) =~= pre.skip(i + 1));
            assert(entries_view(seq![entry]) =~= seq![entry@]);
            assert(entries_view(entries@) =~= pre.take(i as int) + (seq![entry@] + pre.skip(
                i + 1,
            )));
        }
    } else {
        proof {
            if i < n {
                assert(pre.skip(i as int)[0] == pre[i as int]);
                lemma_lex_lt_total(entry@.name, pre[i as int].name);
                assert(entry_insert(pre.skip(i as int), entry@) == seq![entry@] + pre.skip(
                    i as int,
                ));
            } else {
                assert(pre.skip(i as int).len() == 0);
                assert(entry_insert(pre.skip(i as int), entry@) =~= seq![entry@] + pre.skip(
                    i as int,
                ));
            }
        }
        entries.insert(i, entry);
        proof {
            assert(entries@ =~= pre_exec.take(i as int) + (seq![entry] + pre_exec.skip(
                i as int,
            )));
            lemma_entries_view_of_concat(
                pre_exec.take(i as int),
                seq![entry] + pre_exec.skip(i as int),
            );
            lemma_entries_view_of_concat(seq![entry], pre_exec.skip(i as int));
            lemma_entries_view_props(pre_exec.take(i as int));
            lemma_entries_view_props(pre_exec.skip(i as int));
            lemma_entries_view_props(seq![entry]);
            assert(entries_view(pre_exec.take(i as int)) =~= pre.take(i as int));
            assert(entries_view(pre_exec.skip(i as int)) =~= pre.skip(i as int));
            assert(entries_view(seq![entry]) =~= seq![entry@]);
            assert(entries_view(entries@) =~= pre.take(i as int) + (seq![entry@] + pre.skip(
                i as int,
            )));
        }
    }
}

// ------------------------------------------------------------------
// The generator
// ------------------------------------------------------------------

/// Ghost model of a [`CodeGenerator`].
pub struct CodeGeneratorV {
    /// The entry table, sorted by name.
    pub entries: Seq<TypeEntryV>,
    /// The custom header comment, if any.
    pub header: Option<Seq<char>>,
    /// Whether typed declarations are emitted alongside the codecs.
    pub typed_output: bool,
    /// The registry of external type mappings.
    pub registry: Seq<(Seq<char>, TypeMappingV)>,
    /// The marker names that select declarations during extraction.
    pub markers: Seq<Seq<char>>,
    /// The non-fatal diagnostics collected so far.
    pub diagnostics: Seq<Seq<char>>,
}

/// A code generator: collects type entries and renders them as one
/// deterministic text artifact.
#[derive(Debug)]
pub struct CodeGenerator {
    entries: Vec<TypeEntry>,
    header: Option<String>,
    typed_output: bool,
    registry: TypeRegistry,
    markers: Vec<String>,
    diagnostics: Vec<String>,
}

impl View for CodeGenerator {
    type V = CodeGeneratorV;

    closed spec fn view(&self) -> CodeGeneratorV {
        CodeGeneratorV {
            entries: entries_view(self.entries@),
            header: match self.header {
                Option::Some(ref h) => Option::Some(h@),
                Option::None => Option::None,
            },
            typed_output: self.typed_output,
            registry: self.registry@,
            markers: strs_view(self.markers@),
            diagnostics: strs_view(self.diagnostics@),
        }
    }
}

/// Well-formedness of a generator: its entry table is strictly sorted by
/// name, so entry names are unique.
pub open spec fn gen_wf(g: CodeGeneratorV) -> bool {
    entries_sorted(g.entries)
}

/// `g` with its entry table replaced.
pub open spec fn with_entries(g: CodeGeneratorV, entries: Seq<TypeEntryV>) -> CodeGeneratorV {
    CodeGeneratorV { entries, ..g }
}

impl CodeGenerator {
    /// A generator with no entries, the builtin registry mappings, typed
    /// output enabled, and the default marker.
    pub fn new() -> (r: CodeGenerator)
        ensures
            gen_wf(r@),
            r@.entries == Seq::<TypeEntryV>::empty(),
            r@.header is None,
            r@.typed_output == true,
            r@.registry == crate::registry::builtin_mappings(),
            r@.markers == seq!["rkyv::Archive"@],
            r@.diagnostics == Seq::<Seq<char>>::empty(),
    {
        let mut markers: Vec<String> = Vec::new();
        markers.push("rkyv::Archive".to_owned());
        let r = CodeGenerator {
            entries: Vec::new(),
            header: Option::None,
            typed_output: true,
            registry: TypeRegistry::with_builtins(),
            markers,
            diagnostics: Vec::new(),
        };
        proof {
            assert(entries_view(r.entries@) =~= Seq::<TypeEntryV>::empty());
            assert(strs_view(r.diagnostics@) =~= Seq::<Seq<char>>::empty());
            assert(r.markers@.drop_last() =~= Seq::<String>::empty());
            reveal_with_fuel(strs_view, 2);
            assert(strs_view(r.markers@) =~= seq!["rkyv::Archive"@]);
        }
        r
    }

    /// Set a custom header comment for the artifact.
    pub fn set_header(&mut self, header: &str)
        ensures
            final(self)@ == (CodeGeneratorV { header: Option::Some(header@), ..old(self)@ }),
    {
        self.header = Option::Some(header.to_owned());
    }

    /// Enable or disable the typed declarations in the output.  When
    /// disabled, only plain codec constants are emitted.
    pub fn allow_typescript_syntax(&mut self, enabled: bool)
        ensures
            final(self)@ == (CodeGeneratorV { typed_output: enabled, ..old(self)@ }),
    {
        self.typed_output = enabled;
    }

    /// Add a marker name that selects declarations during extraction.
    pub fn add_marker(&mut self, marker: &str)
        ensures
            final(self)@ == (CodeGeneratorV {
                markers: old(self)@.markers.push(marker@),
                ..old(self)@
            }),
    {
        let ghost pre = self.markers@;
        self.markers.push(marker.to_owned());
        proof {
            assert(self.markers@.drop_last() =~= pre);
        }
    }

    /// Replace the marker names, discarding the default.
    pub fn set_markers(&mut self, markers: &[&str])
        ensures
            final(self)@ == (CodeGeneratorV {
                markers: refs_view(markers@),
                ..old(self)@
            }),
    {
        let n = markers.len();
        let mut out: Vec<String> = Vec::new();
        let mut i: usize = 0;
        proof {
            lemma_refs_view_props(markers@);
            assert(markers@.take(0) =~= Seq::empty());
            assert(strs_view(out@) =~= refs_view(markers@.take(0)));
        }
        while i < n
            invariant
                i <= n,
                n == markers.len(),
                strs_view(out@) == refs_view(markers@.take(i as int)),
            decreases n - i,
        {
            let ghost pre = out@;
            out.push(markers[i].to_owned());
            proof {
                assert(out@.drop_last() =~= pre);
                assert(markers@.take(i + 1).drop_last() =~= markers@.take(i as int));
                assert(markers@.take(i + 1).last() == markers@[i as int]);
            }
            i = i + 1;
        }
        self.markers = out;
        proof {
            assert(markers@.take(n as int) =~= markers@);
        }
    }

    /// Register a mapping for an external type name; extraction will
    /// recognise the name and stamp the mapping's templates.
    pub fn register_type(&mut self, name: &str, mapping: TypeMapping)
        ensures
            final(self)@ == (CodeGeneratorV {
                registry: old(self)@.registry.push((name@, mapping@)),
                ..old(self)@
            }),
    {
        self.registry.register(name, mapping);
    }

    /// Remove every mapping registered for `name`; a builtin mapping can be
    /// disabled this way.
    pub fn unregister_type(&mut self, name: &str)
        ensures
            final(self)@ == (CodeGeneratorV {
                registry: reg_remove(old(self)@.registry, name@),
                ..old(self)@
            }),
    {
        self.registry.unregister(name);
    }

    /// The registry of external type mappings.
    pub fn registry(&self) -> (r: &TypeRegistry)
        ensures
            r@ == self@.registry,
    {
        &self.registry
    }

    /// Add a struct entry named `name` with the given fields; an entry
    /// already added under the same name is replaced.
    pub fn add_struct(&mut self, name: &str, fields: &[(&str, TypeDef)])
        requires
            gen_wf(old(self)@),
        ensures
            gen_wf(final(self)@),
            final(self)@ == with_entries(
                old(self)@,
                entry_insert(
                    old(self)@.entries,
                    TypeEntryV {
                        name: name@,
                        archived_name: Option::None,
                        kind: TypeKindV::Struct(ref_fields_view(fields@)),
                    },
                ),
            ),
    {
        let n = fields.len();
        let mut owned: Vec<(String, TypeDef)> = Vec::new();
        let mut i: usize = 0;
        proof {
            lemma_ref_fields_view_props(fields@);
            assert(fields@.take(0) =~= Seq::empty());
            assert(fields_view(owned@) =~= ref_fields_view(fields@.take(0)));
        }
        while i < n
            invariant
                i <= n,
                n == fields.len(),
                fields_view(owned@) == ref_fields_view(fields@.take(i as int)),
            decreases n - i,
        {
            let ghost pre = owned@;
            let fname = fields[i].0.to_owned();
            let fty = fields[i].1.clone();
            owned.push((fname, fty));
            proof {
                assert(owned@.drop_last() =~= pre);
                assert(fields@.take(i + 1).drop_last() =~= fields@.take(i as int));
                assert(fields@.take(i + 1).last() == fields@[i as int]);
            }
            i = i + 1;
        }
        proof {
            assert(fields@.take(n as int) =~= fields@);
        }
        let entry = TypeEntry {
            name: name.to_owned(),
            archived_name: Option::None,
            kind: TypeKind::Struct(owned),
        };
        insert_entry(&mut self.entries, entry);
        proof {
            lemma_entry_insert_sorted(old(self)@.entries, entry@);
        }
    }

    /// Add an enum entry named `name` with the given variants; an entry
    /// already added under the same name is replaced.
    pub fn add_enum(&mut self, name: &str, variants: &[EnumVariant])
        requires
            gen_wf(old(self)@),
        ensures
            gen_wf(final(self)@),
            final(self)@ == with_entries(
                old(self)@,
                entry_insert(
                    old(self)@.entries,
                    TypeEntryV {
                        name: name@,
                        archived_name: Option::None,
                        kind: TypeKindV::Enum(variants_view(variants@)),
                    },
                ),
            ),
    {
        let n = variants.len();
        let mut owned: Vec<EnumVariant> = Vec::new();
        let mut i: usize = 0;
        proof {
            lemma_variants_view_props(variants@);
            assert(variants@.take(0) =~= Seq::empty());
            assert(variants_view(owned@) =~= variants_view(variants@.take(0)));
        }
        while i < n
            invariant
                i <= n,
                n == variants.len(),
                variants_view(owned@) == variants_view(variants@.take(i as int)),
            decreases n - i,
        {
            let ghost pre = owned@;
            owned.push(variants[i].clone());
            proof {
                assert(owned@.drop_last() =~= pre);
                assert(variants@.take(i + 1).drop_last() =~= variants@.take(i as int));
                assert(variants@.take(i + 1).last() == variants@[i as int]);
                lemma_variants_view_props(variants@.take(i + 1));
            }
            i = i + 1;
        }
        proof {
            assert(variants@.take(n as int) =~= variants@);
        }
        let entry = TypeEntry {
            name: name.to_owned(),
            archived_name: Option::None,
            kind: TypeKind::Enum(owned),
        };
        insert_entry(&mut self.entries, entry);
        proof {
            lemma_entry_insert_sorted(old(self)@.entries, entry@);
        }
    }

    /// Add a union entry named `name` with the given variants; an entry
    /// already added under the same name is replaced.
    pub fn add_union(&mut self, name: &str, variants: &[UnionVariant])
        requires
            gen_wf(old(self)@),
        ensures
            gen_wf(final(self)@),
            final(self)@ == with_entries(
                old(self)@,
                entry_insert(
                    old(self)@.entries,
                    TypeEntryV {
                        name: name@,
                        archived_name: Option::None,
                        kind: TypeKindV::Union(uvariants_view(variants@)),
                    },
                ),
            ),
    {
        let n = variants.len();
        let mut owned: Vec<UnionVariant> = Vec::new();
        let mut i: usize = 0;
        proof {
            lemma_uvariants_view_props(variants@);
            assert(variants@.take(0) =~= Seq::empty());
            assert(uvariants_view(owned@) =~= uvariants_view(variants@.take(0)));
        }
        while i < n
            invariant
                i <= n,
                n == variants.len(),
                uvariants_view(owned@) == uvariants_view(variants@.take(i as int)),
            decreases n - i,
        {
            let ghost pre = owned@;
            owned.push(variants[i].clone());
            proof {
                assert(owned@.drop_last() =~= pre);
                assert(variants@.take(i + 1).drop_last() =~= variants@.take(i as int));
                assert(variants@.take(i + 1).last() == variants@[i as int]);
                lemma_uvariants_view_props(variants@.take(i + 1));
            }
            i = i + 1;
        }
        proof {
            assert(variants@.take(n as int) =~= variants@);
        }
        let entry = TypeEntry {
            name: name.to_owned(),
            archived_name: Option::None,
            kind: TypeKind::Union(owned),
        };
        insert_entry(&mut self.entries, entry);
        proof {
            lemma_entry_insert_sorted(old(self)@.entries, entry@);
        }
    }

    /// Add an alias entry named `name` for `target`; an entry already
    /// added under the same name is replaced.
    pub fn add_alias(&mut self, name: &str, target: TypeDef)
        requires
            gen_wf(old(self)@),
        ensures
            gen_wf(final(self)@),
            final(self)@ == with_entries(
                old(self)@,
                entry_insert(
                    old(self)@.entries,
                    TypeEntryV {
                        name: name@,
                        archived_name: Option::None,
                        kind: TypeKindV::Alias(target@),
                    },
                ),
            ),
    {
        let entry = TypeEntry {
            name: name.to_owned(),
            archived_name: Option::None,
            kind: TypeKind::Alias(target),
        };
        insert_entry(&mut self.entries, entry);
        proof {
            lemma_entry_insert_sorted(old(self)@.entries, entry@);
        }
    }
}


// ------------------------------------------------------------------
// Output-name overrides and the archived-name map
// ------------------------------------------------------------------

/// The entry table with the entry named `k` (if any) given the custom
/// output name `a`.
pub open spec fn set_archived(s: Seq<TypeEntryV>, k: Seq<char>, a: Seq<char>) -> Seq<TypeEntryV> {
    Seq::new(
        s.len(),
        |i: int|
            if s[i].name == k {
                TypeEntryV { name: s[i].name, archived_name: Option::Some(a), kind: s[i].kind }
            } else {
                s[i]
            },
    )
}

/// The name-to-output-identifier map built from every entry.
pub open spec fn archived_map(s: Seq<TypeEntryV>) -> Seq<(Seq<char>, Seq<char>)>
    decreases s.len(),
{
    if s.len() == 0 {
        Seq::empty()
    } else {
        archived_map(s.drop_last()).push((s.last().name, entry_archived(s.last())))
    }
}

impl CodeGenerator {
    /// Give the entry named `entry_name` the custom output name
    /// `archived_name`.  When no such entry exists the call is ignored.
    /// The override takes effect at generation time no matter in which
    /// order it and the `add` calls were made.
    pub fn set_archived_name(&mut self, entry_name: &str, archived_name: &str)
        requires
            gen_wf(old(self)@),
        ensures
            gen_wf(final(self)@),
            final(self)@ == with_entries(
                old(self)@,
                set_archived(old(self)@.entries, entry_name@, archived_name@),
            ),
    {
        let ghost pre = entries_view(self.entries@);
        let n = self.entries.len();
        let mut i: usize = 0;
        proof {
            lemma_entries_view_props(self.entries@);
        }
        while i < n
            invariant
                i <= n,
                n == self.entries.len(),
                pre == entries_view(self.entries@),
                pre.len() == n,
                entries_sorted(pre),
                *self == *old(self),
                forall|j: int| 0 <= j < n ==> pre[j] == self.entries@[j]@,
                forall|j: int| 0 <= j < i ==> pre[j].name != entry_name@,
            decreases n - i,
        {
            if str_eq(self.entries[i].name.as_str(), entry_name) {
                let ghost pre_exec = self.entries@;
                let mut e = self.entries.remove(i);
                e.archived_name = Option::Some(archived_name.to_owned());
                self.entries.insert(i, e);
                proof {
                    assert(self.entries@ =~= pre_exec.update(i as int, e));
                    lemma_entries_view_props(self.entries@);
                    assert forall|j: int| 0 <= j < n && j != i implies pre[j].name
                        != entry_name@ by {
                        if j > i {
                            assert(lex_lt(pre[i as int].name, pre[j].name));
                            lemma_lex_lt_asymmetric(pre[i as int].name, pre[j].name);
                        }
                    }
                    assert(entries_view(self.entries@) =~= set_archived(
                        pre,
                        entry_name@,
                        archived_name@,
                    ));
                    assert(entries_sorted(entries_view(self.entries@)));
                }
                return ;
            }
            i = i + 1;
        }
        proof {
            assert(set_archived(pre, entry_name@, archived_name@) =~= pre);
        }
    }

    /// Build the name-to-output-identifier map from every entry.
    pub fn build_archived_names(&self) -> (r: crate::types::NameMap)
        ensures
            r@ == archived_map(self@.entries),
    {
        let ghost sv = entries_view(self.entries@);
        let mut r = crate::types::NameMap::new();
        let n = self.entries.len();
        let mut i: usize = 0;
        proof {
            lemma_entries_view_props(self.entries@);
            assert(sv.take(0) =~= Seq::empty());
            assert(r@ =~= archived_map(sv.take(0)));
        }
        while i < n
            invariant
                i <= n,
                n == self.entries.len(),
                sv == entries_view(self.entries@),
                sv.len() == n,
                forall|j: int| 0 <= j < n ==> sv[j] == self.entries@[j]@,
                r@ == archived_map(sv.take(i as int)),
            decreases n - i,
        {
            let name = self.entries[i].name.clone();
            let archived = self.entries[i].archived_name_or_default();
            r.push(name, archived);
            proof {
                assert(sv.take(i + 1).drop_last() =~= sv.take(i as int));
                assert(sv.take(i + 1).last() == sv[i as int]);
            }
            i = i + 1;
        }
        proof {
            assert(sv.take(n as int) =~= sv);
        }
        r
    }
}

// ------------------------------------------------------------------
// The dependency resolver
// ------------------------------------------------------------------

/// Whether every entry named `d` is already emitted.
pub open spec fn dep_satisfied(s: Seq<TypeEntryV>, done: Seq<bool>, d: Seq<char>) -> bool {
    forall|j: int| 0 <= j < s.len() && s[j].name == d ==> done[j]
}

/// Whether every dependency of entry `e` that names a present entry is
/// already emitted.
pub open spec fn entry_ready(s: Seq<TypeEntryV>, done: Seq<bool>, e: TypeEntryV) -> bool {
    forall|k: int| 0 <= k < entry_deps(e).len() ==> dep_satisfied(s, done, entry_deps(e)[k])
}

/// The first entry at index `i` or later that is unemitted and ready.
pub open spec fn first_ready(s: Seq<TypeEntryV>, done: Seq<bool>, i: int) -> Option<int>
    decreases s.len() - i,
{
    if i < 0 || i >= s.len() {
        Option::None
    } else if !done[i] && entry_ready(s, done, s[i]) {
        Option::Some(i)
    } else {
        first_ready(s, done, i + 1)
    }
}

/// Repeatedly emit the first ready entry, up to `fuel` times; returns the
/// emitted indices and the final emission flags.
pub open spec fn topo_main(s: Seq<TypeEntryV>, done: Seq<bool>, fuel: nat) -> (Seq<int>, Seq<
    bool,
>)
    decreases fuel,
{
    if fuel == 0 {
        (Seq::empty(), done)
    } else {
        match first_ready(s, done, 0) {
            Option::None => (Seq::empty(), done),
            Option::Some(i) => {
                let rec = topo_main(s, done.update(i, true), (fuel - 1) as nat);
                (seq![i] + rec.0, rec.1)
            },
        }
    }
}

/// The indices never emitted, in table order; these cover reference cycles.
pub open spec fn unfinished(s: Seq<TypeEntryV>, done: Seq<bool>, i: int) -> Seq<int>
    decreases s.len() - i,
{
    if i < 0 || i >= s.len() {
        Seq::empty()
    } else if !done[i] {
        seq![i] + unfinished(s, done, i + 1)
    } else {
        unfinished(s, done, i + 1)
    }
}

/// The order entries are emitted in: ready entries first, by repeatedly
/// taking the first ready one, then any entries caught in reference
/// cycles, in table order.
pub open spec fn emission_order(s: Seq<TypeEntryV>) -> Seq<int> {
    let init = Seq::new(s.len(), |i: int| false);
    let main = topo_main(s, init, s.len());
    main.0 + unfinished(s, main.1, 0)
}

/// The indices as mathematical integers.
pub open spec fn ints_view(s: Seq<usize>) -> Seq<int> {
    Seq::new(s.len(), |i: int| s[i] as int)
}

/// Append the named dependencies of `e`'s fields and variants to `deps`.
fn entry_collect_deps(e: &TypeEntry, deps: &mut Vec<String>)
    ensures
        strs_view(final(deps)@) == strs_view(old(deps)@) + entry_deps(e@),
{
    let ghost base = strs_view(old(deps)@);
    match &e.kind {
        TypeKind::Alias(t) => {
            t.collect_named_deps(deps);
        },
        TypeKind::Struct(fields) => {
            let ghost fv = fields_view(fields@);
            let n = fields.len();
            let mut i: usize = 0;
            proof {
                lemma_fields_view_props(fields@);
                assert(fv.take(0) =~= Seq::empty());
                assert(base + fields_deps(fv.take(0)) =~= base);
            }
            while i < n
                invariant
                    i <= n,
                    n == fields.len(),
                    fv == fields_view(fields@),
                    fv.len() == n,
                    forall|j: int|
                        0 <= j < n ==> fv[j] == (fields@[j].0@, crate::types::td_view(
                            fields@[j].1,
                        )),
                    strs_view(deps@) == base + fields_deps(fv.take(i as int)),
                decreases n - i,
            {
                fields[i].1.collect_named_deps(deps);
                proof {
                    assert(fv.take(i + 1).drop_last() =~= fv.take(i as int));
                    assert(fv.take(i + 1).last() == fv[i as int]);
                }
                i = i + 1;
            }
            proof {
                assert(fv.take(n as int) =~= fv);
            }
        },
        TypeKind::Enum(vs) => {
            let ghost vv = variants_view(vs@);
            let n = vs.len();
            let mut i: usize = 0;
            proof {
                lemma_variants_view_props(vs@);
                assert(vv.take(0) =~= Seq::empty());
                assert(base + variants_deps(vv.take(0)) =~= base);
            }
            while i < n
                invariant
                    i <= n,
                    n == vs.len(),
                    vv == variants_view(vs@),
                    vv.len() == n,
                    forall|j: int| 0 <= j < n ==> vv[j] == vs@[j]@,
                    strs_view(deps@) == base + variants_deps(vv.take(i as int)),
                decreases n - i,
            {
                variant_collect_deps(&vs[i], deps);
                proof {
                    assert(vv.take(i + 1).drop_last() =~= vv.take(i as int));
                    assert(vv.take(i + 1).last() == vv[i as int]);
                }
                i = i + 1;
            }
            proof {
                assert(vv.take(n as int) =~= vv);
            }
        },
        TypeKind::Union(vs) => {
            let ghost vv = uvariants_view(vs@);
            let n = vs.len();
            let mut i: usize = 0;
            proof {
                lemma_uvariants_view_props(vs@);
                assert(vv.take(0) =~= Seq::empty());
                assert(base + uvariants_deps(vv.take(0)) =~= base);
            }
            while i < n
                invariant
                    i <= n,
                    n == vs.len(),
                    vv == uvariants_view(vs@),
                    vv.len() == n,
                    forall|j: int| 0 <= j < n ==> vv[j] == vs@[j]@,
                    strs_view(deps@) == base + uvariants_deps(vv.take(i as int)),
                decreases n - i,
            {
                vs[i].ty.collect_named_deps(deps);
                proof {
                    assert(vv.take(i + 1).drop_last() =~= vv.take(i as int));
                    assert(vv.take(i + 1).last() == vv[i as int]);
                }
                i = i + 1;
            }
            proof {
                assert(vv.take(n as int) =~= vv);
            }
        },
    }
}

/// Append the named dependencies of one enum variant to `deps`.
fn variant_collect_deps(v: &EnumVariant, deps: &mut Vec<String>)
    ensures
        strs_view(final(deps)@) == strs_view(old(deps)@) + variant_deps(v@),
{
    let ghost base = strs_view(old(deps)@);
    match v {
        EnumVariant::Unit(_) => {
            proof {
                assert(base + variant_deps(v@) =~= base);
            }
        },
        EnumVariant::Tuple(_, tys) => {
            let ghost tv = tds_view(tys@);
            let n = tys.len();
            let mut i: usize = 0;
            proof {
                crate::types::lemma_tds_view_props(tys@);
                assert(tv.take(0) =~= Seq::empty());
                assert(base + named_deps_of_list(tv.take(0)) =~= base);
            }
            while i < n
                invariant
                    i <= n,
                    n == tys.len(),
                    tv == tds_view(tys@),
                    tv.len() == n,
                    forall|j: int| 0 <= j < n ==> tv[j] == crate::types::td_view(tys@[j]),
                    strs_view(deps@) == base + named_deps_of_list(tv.take(i as int)),
                decreases n - i,
            {
                tys[i].collect_named_deps(deps);
                proof {
                    assert(tv.take(i + 1).drop_last() =~= tv.take(i as int));
                    assert(tv.take(i + 1).last() == tv[i as int]);
                }
                i = i + 1;
            }
            proof {
                assert(tv.take(n as int) =~= tv);
            }
        },
        EnumVariant::Struct(_, fields) => {
            let ghost fv = fields_view(fields@);
            let n = fields.len();
            let mut i: usize = 0;
            proof {
                lemma_fields_view_props(fields@);
                assert(fv.take(0) =~= Seq::empty());
                assert(base + fields_deps(fv.take(0)) =~= base);
            }
            while i < n
                invariant
                    i <= n,
                    n == fields.len(),
                    fv == fields_view(fields@),
                    fv.len() == n,
                    forall|j: int|
                        0 <= j < n ==> fv[j] == (fields@[j].0@, crate::types::td_view(
                            fields@[j].1,
                        )),
                    strs_view(deps@) == base + fields_deps(fv.take(i as int)),
                decreases n - i,
            {
                fields[i].1.collect_named_deps(deps);
                proof {
                    assert(fv.take(i + 1).drop_last() =~= fv.take(i as int));
                    assert(fv.take(i + 1).last() == fv[i as int]);
                }
                i = i + 1;
            }
            proof {
                assert(fv.take(n as int) =~= fv);
            }
        },
    }
}

/// Whether every dependency of `e` that names a present entry is already
/// emitted.
fn entry_ready_exec(entries: &Vec<TypeEntry>, done: &Vec<bool>, e: &TypeEntry) -> (r: bool)
    requires
        done@.len() == entries@.len(),
    ensures
        r == entry_ready(entries_view(entries@), done@, e@),
{
    let ghost sv = entries_view(entries@);
    let mut deps: Vec<String> = Vec::new();
    proof {
        assert(strs_view(deps@) =~= Seq::<Seq<char>>::empty());
    }
    entry_collect_deps(e, &mut deps);
    let ghost dv = strs_view(deps@);
    proof {
        assert(Seq::<Seq<char>>::empty() + entry_deps(e@) =~= entry_deps(e@));
        crate::strutil::lemma_strs_view_props(deps@);
        lemma_entries_view_props(entries@);
    }
    let dn = deps.len();
    let n = entries.len();
    let mut k: usize = 0;
    while k < dn
        invariant
            k <= dn,
            dn == deps.len(),
            dv == strs_view(deps@),
            dv == entry_deps(e@),
            dv.len() == dn,
            forall|j: int| 0 <= j < dn ==> dv[j] == deps@[j]@,
            n == entries.len(),
            sv == entries_view(entries@),
            sv.len() == n,
            done@.len() == n,
            forall|j: int| 0 <= j < n ==> sv[j] == entries@[j]@,
            forall|kk: int| 0 <= kk < k ==> dep_satisfied(sv, done@, dv[kk]),
        decreases dn - k,
    {
        let mut j: usize = 0;
        while j < n
            invariant
                j <= n,
                k < dn,
                dn == deps.len(),
                dv == strs_view(deps@),
                dv == entry_deps(e@),
                dv.len() == dn,
                forall|jj: int| 0 <= jj < dn ==> dv[jj] == deps@[jj]@,
                n == entries.len(),
                sv == entries_view(entries@),
                sv.len() == n,
                done@.len() == n,
                forall|jj: int| 0 <= jj < n ==> sv[jj] == entries@[jj]@,
                forall|jj: int|
                    0 <= jj < j && sv[jj].name == dv[k as int] ==> done@[jj],
            decreases n - j,
        {
            if str_eq(entries[j].name.as_str(), deps[k].as_str()) && !done[j] {
                proof {
                    assert(sv[j as int].name == dv[k as int]);
                    assert(!dep_satisfied(sv, done@, dv[k as int]));
                }
                return false;
            }
            j = j + 1;
        }
        proof {
            assert(dep_satisfied(sv, done@, dv[k as int]));
        }
        k = k + 1;
    }
    true
}

/// The emission order of `entries`: the index of every entry exactly once,
/// dependencies first wherever the reference graph allows it.
fn emission_order_exec(entries: &Vec<TypeEntry>) -> (r: Vec<usize>)
    ensures
        ints_view(r@) == emission_order(entries_view(entries@)),
        forall|k: int| 0 <= k < r@.len() ==> (r@[k] as int) < entries@.len(),
{
    let ghost sv = entries_view(entries@);
    let n = entries.len();
    proof {
        lemma_entries_view_props(entries@);
    }
    let mut done: Vec<bool> = Vec::new();
    let mut z: usize = 0;
    while z < n
        invariant
            z <= n,
            done@.len() == z,
            forall|j: int| 0 <= j < z ==> done@[j] == false,
        decreases n - z,
    {
        done.push(false);
        z = z + 1;
    }
    let ghost init = Seq::new(sv.len(), |i: int| false);
    proof {
        assert(done@ =~= init);
    }
    let mut order: Vec<usize> = Vec::new();
    let mut rounds: usize = 0;
    while rounds < n
        invariant
            rounds <= n,
            n == entries.len(),
            sv == entries_view(entries@),
            sv.len() == n,
            forall|j: int| 0 <= j < n ==> sv[j] == entries@[j]@,
            done@.len() == n,
            forall|k: int| 0 <= k < order@.len() ==> (order@[k] as int) < n,
            topo_main(sv, init, n as nat).0 == ints_view(order@) + topo_main(
                sv,
                done@,
                (n - rounds) as nat,
            ).0,
            topo_main(sv, init, n as nat).1 == topo_main(sv, done@, (n - rounds) as nat).1,
        decreases n - rounds,
    {
        // scan for the first ready, unemitted entry
        let mut found: bool = false;
        let mut pick: usize = 0;
        let mut j: usize = 0;
        while j < n && !found
            invariant
                j <= n,
                n == entries.len(),
                sv == entries_view(entries@),
                sv.len() == n,
                forall|jj: int| 0 <= jj < n ==> sv[jj] == entries@[jj]@,
                done@.len() == n,
                !found ==> first_ready(sv, done@, 0) == first_ready(sv, done@, j as int),
                found ==> pick < n && first_ready(sv, done@, 0) == Option::Some(
                    pick as int,
                ),
            decreases n - j, (if found { 0int } else { 1int }),
        {
            if !done[j] && entry_ready_exec(entries, &done, &entries[j]) {
                found = true;
                pick = j;
            } else {
                j = j + 1;
            }
        }
        if found {
            let ghost pre_done = done@;
            let ghost fuel = (n - rounds) as nat;
            let _ = done.remove(pick);
            done.insert(pick, true);
            proof {
                assert(done@ =~= pre_done.update(pick as int, true));
            }
            let ghost pre_order = order@;
            order.push(pick);
            proof {
                assert(fuel > 0);
                assert(topo_main(sv, pre_done, fuel).0 == seq![pick as int] + topo_main(
                    sv,
                    done@,
                    (fuel - 1) as nat,
                ).0);
                assert(ints_view(order@) =~= ints_view(pre_order).push(pick as int));
                assert(ints_view(pre_order) + (seq![pick as int] + topo_main(
                    sv,
                    done@,
                    (fuel - 1) as nat,
                ).0) =~= ints_view(order@) + topo_main(sv, done@, (fuel - 1) as nat).0);
            }
        } else {
            proof {
                let ghost fuel = (n - rounds) as nat;
                assert(first_ready(sv, done@, 0) is None);
                if fuel > 0 {
                    assert(topo_main(sv, done@, fuel).0 =~= Seq::<int>::empty());
                    assert(topo_main(sv, done@, (fuel - 1) as nat).0 =~= Seq::<int>::empty());
                }
            }
        }
        rounds = rounds + 1;
    }
    proof {
        assert(topo_main(sv, done@, 0nat).0 =~= Seq::<int>::empty());
        assert(ints_view(order@) + Seq::<int>::empty() =~= ints_view(order@));
        assert(ints_view(order@) =~= topo_main(sv, init, n as nat).0);
        assert(done@ == topo_main(sv, init, n as nat).1);
    }
    // append entries caught in cycles, in table order
    let ghost dfin = done@;
    let ghost main0 = topo_main(sv, init, n as nat).0;
    let mut i: usize = 0;
    proof {
        assert(ints_view(order@) + unfinished(sv, dfin, 0) =~= main0 + unfinished(
            sv,
            dfin,
            0,
        ));
    }
    while i < n
        invariant
            i <= n,
            n == entries.len(),
            sv.len() == n,
            dfin == done@,
            done@.len() == n,
            forall|k: int| 0 <= k < order@.len() ==> (order@[k] as int) < n,
            main0 + unfinished(sv, dfin, 0) == ints_view(order@) + unfinished(
                sv,
                dfin,
                i as int,
            ),
        decreases n - i,
    {
        if !done[i] {
            let ghost pre_order = order@;
            order.push(i);
            proof {
                assert(unfinished(sv, dfin, i as int) == seq![i as int] + unfinished(
                    sv,
                    dfin,
                    i + 1,
                ));
                assert(ints_view(order@) =~= ints_view(pre_order).push(i as int));
                assert(ints_view(pre_order) + (seq![i as int] + unfinished(sv, dfin, i + 1))
                    =~= ints_view(order@) + unfinished(sv, dfin, i + 1));
            }
        } else {
            proof {
                assert(unfinished(sv, dfin, i as int) == unfinished(sv, dfin, i + 1));
            }
        }
        i = i + 1;
    }
    proof {
        assert(unfinished(sv, dfin, n as int) =~= Seq::<int>::empty());
        assert(ints_view(order@) + Seq::<int>::empty() =~= ints_view(order@));
    }
    order
}


// ------------------------------------------------------------------
// Entry imports
// ------------------------------------------------------------------

pub open spec fn fields_imports(fields: Seq<(Seq<char>, TypeDefV)>) -> Seq<
    crate::types::ImportV,
>
    decreases fields.len(),
{
    if fields.len() == 0 {
        Seq::empty()
    } else {
        fields_imports(fields.drop_last()) + crate::types::imports_of(fields.last().1)
    }
}

pub open spec fn variant_imports(v: EnumVariantV) -> Seq<crate::types::ImportV> {
    match v {
        EnumVariantV::Unit(_) => Seq::empty(),
        EnumVariantV::Tuple(_, tys) => crate::types::imports_of_list(tys),
        EnumVariantV::Struct(_, fields) => fields_imports(fields),
    }
}

pub open spec fn variants_imports(vs: Seq<EnumVariantV>) -> Seq<crate::types::ImportV>
    decreases vs.len(),
{
    if vs.len() == 0 {
        Seq::empty()
    } else {
        variants_imports(vs.drop_last()) + variant_imports(vs.last())
    }
}

pub open spec fn uvariants_imports(vs: Seq<UnionVariantV>) -> Seq<crate::types::ImportV>
    decreases vs.len(),
{
    if vs.len() == 0 {
        Seq::empty()
    } else {
        uvariants_imports(vs.drop_last()) + crate::types::imports_of(vs.last().ty)
    }
}

/// Every import an entry's fields or variants require.
pub open spec fn entry_imports(e: TypeEntryV) -> Seq<crate::types::ImportV> {
    match e.kind {
        TypeKindV::Struct(fields) => fields_imports(fields),
        TypeKindV::Enum(vs) => variants_imports(vs),
        TypeKindV::Union(vs) => uvariants_imports(vs),
        TypeKindV::Alias(t) => crate::types::imports_of(t),
    }
}

/// Every import any entry requires, in table order.
pub open spec fn all_imports(s: Seq<TypeEntryV>) -> Seq<crate::types::ImportV>
    decreases s.len(),
{
    if s.len() == 0 {
        Seq::empty()
    } else {
        all_imports(s.drop_last()) + entry_imports(s.last())
    }
}

/// Append the imports of `e`'s fields and variants to `imports`.
fn entry_collect_imports(e: &TypeEntry, imports: &mut Vec<Import>)
    ensures
        crate::types::imports_view(final(imports)@) == crate::types::imports_view(
            old(imports)@,
        ) + entry_imports(e@),
{
    let ghost base = crate::types::imports_view(old(imports)@);
    match &e.kind {
        TypeKind::Alias(t) => {
            t.collect_imports(imports);
        },
        TypeKind::Struct(fields) => {
            let ghost fv = fields_view(fields@);
            let n = fields.len();
            let mut i: usize = 0;
            proof {
                lemma_fields_view_props(fields@);
                assert(fv.take(0) =~= Seq::empty());
                assert(base + fields_imports(fv.take(0)) =~= base);
            }
            while i < n
                invariant
                    i <= n,
                    n == fields.len(),
                    fv == fields_view(fields@),
                    fv.len() == n,
                    forall|j: int|
                        0 <= j < n ==> fv[j] == (fields@[j].0@, crate::types::td_view(
                            fields@[j].1,
                        )),
                    crate::types::imports_view(imports@) == base + fields_imports(
                        fv.take(i as int),
                    ),
                decreases n - i,
            {
                fields[i].1.collect_imports(imports);
                proof {
                    assert(fv.take(i + 1).drop_last() =~= fv.take(i as int));
                    assert(fv.take(i + 1).last() == fv[i as int]);
                }
                i = i + 1;
            }
            proof {
                assert(fv.take(n as int) =~= fv);
            }
        },
        TypeKind::Enum(vs) => {
            let ghost vv = variants_view(vs@);
            let n = vs.len();
            let mut i: usize = 0;
            proof {
                lemma_variants_view_props(vs@);
                assert(vv.take(0) =~= Seq::empty());
                assert(base + variants_imports(vv.take(0)) =~= base);
            }
            while i < n
                invariant
                    i <= n,
                    n == vs.len(),
                    vv == variants_view(vs@),
                    vv.len() == n,
                    forall|j: int| 0 <= j < n ==> vv[j] == vs@[j]@,
                    crate::types::imports_view(imports@) == base + variants_imports(
                        vv.take(i as int),
                    ),
                decreases n - i,
            {
                variant_collect_imports(&vs[i], imports);
                proof {
                    assert(vv.take(i + 1).drop_last() =~= vv.take(i as int));
                    assert(vv.take(i + 1).last() == vv[i as int]);
                }
                i = i + 1;
            }
            proof {
                assert(vv.take(n as int) =~= vv);
            }
        },
        TypeKind::Union(vs) => {
            let ghost vv = uvariants_view(vs@);
            let n = vs.len();
            let mut i: usize = 0;
            proof {
                lemma_uvariants_view_props(vs@);
                assert(vv.take(0) =~= Seq::empty());
                assert(base + uvariants_imports(vv.take(0)) =~= base);
            }
            while i < n
                invariant
                    i <= n,
                    n == vs.len(),
                    vv == uvariants_view(vs@),
                    vv.len() == n,
                    forall|j: int| 0 <= j < n ==> vv[j] == vs@[j]@,
                    crate::types::imports_view(imports@) == base + uvariants_imports(
                        vv.take(i as int),
                    ),
                decreases n - i,
            {
                vs[i].ty.collect_imports(imports);
                proof {
                    assert(vv.take(i + 1).drop_last() =~= vv.take(i as int));
                    assert(vv.take(i + 1).last() == vv[i as int]);
                }
                i = i + 1;
            }
            proof {
                assert(vv.take(n as int) =~= vv);
            }
        },
    }
}

/// Append the imports of one enum variant to `imports`.
fn variant_collect_imports(v: &EnumVariant, imports: &mut Vec<Import>)
    ensures
        crate::types::imports_view(final(imports)@) == crate::types::imports_view(
            old(imports)@,
        ) + variant_imports(v@),
{
    let ghost base = crate::types::imports_view(old(imports)@);
    match v {
        EnumVariant::Unit(_) => {
            proof {
                assert(base + variant_imports(v@) =~= base);
            }
        },
        EnumVariant::Tuple(_, tys) => {
            let ghost tv = tds_view(tys@);
            let n = tys.len();
            let mut i: usize = 0;
            proof {
                crate::types::lemma_tds_view_props(tys@);
                assert(tv.take(0) =~= Seq::empty());
                assert(base + crate::types::imports_of_list(tv.take(0)) =~= base);
            }
            while i < n
                invariant
                    i <= n,
                    n == tys.len(),
                    tv == tds_view(tys@),
                    tv.len() == n,
                    forall|j: int| 0 <= j < n ==> tv[j] == crate::types::td_view(tys@[j]),
                    crate::types::imports_view(imports@) == base
                        + crate::types::imports_of_list(tv.take(i as int)),
                decreases n - i,
            {
                tys[i].collect_imports(imports);
                proof {
                    assert(tv.take(i + 1).drop_last() =~= tv.take(i as int));
                    assert(tv.take(i + 1).last() == tv[i as int]);
                }
                i = i + 1;
            }
            proof {
                assert(tv.take(n as int) =~= tv);
            }
        },
        EnumVariant::Struct(_, fields) => {
            let ghost fv = fields_view(fields@);
            let n = fields.len();
            let mut i: usize = 0;
            proof {
                lemma_fields_view_props(fields@);
                assert(fv.take(0) =~= Seq::empty());
                assert(base + fields_imports(fv.take(0)) =~= base);
            }
            while i < n
                invariant
                    i <= n,
                    n == fields.len(),
                    fv == fields_view(fields@),
                    fv.len() == n,
                    forall|j: int|
                        0 <= j < n ==> fv[j] == (fields@[j].0@, crate::types::td_view(
                            fields@[j].1,
                        )),
                    crate::types::imports_view(imports@) == base + fields_imports(
                        fv.take(i as int),
                    ),
                decreases n - i,
            {
                fields[i].1.collect_imports(imports);
                proof {
                    assert(fv.take(i + 1).drop_last() =~= fv.take(i as int));
                    assert(fv.take(i + 1).last() == fv[i as int]);
                }
                i = i + 1;
            }
            proof {
                assert(fv.take(n as int) =~= fv);
            }
        },
    }
}


// ------------------------------------------------------------------
// Block rendering
// ------------------------------------------------------------------

/// One indented field line of a struct codec: `  name: expr,` + newline.
pub open spec fn field_lines(
    fields: Seq<(Seq<char>, TypeDefV)>,
    m: Seq<(Seq<char>, Seq<char>)>,
) -> Seq<char>
    decreases fields.len(),
{
    if fields.len() == 0 {
        Seq::empty()
    } else {
        field_lines(fields.drop_last(), m) + "  "@ + fields.last().0 + ": "@
            + crate::types::codec_expr(fields.last().1, m) + ",\n"@
    }
}

/// The fields of a struct-shaped variant, inline: `f: expr, g: expr`.
pub open spec fn inline_fields(
    fields: Seq<(Seq<char>, TypeDefV)>,
    m: Seq<(Seq<char>, Seq<char>)>,
) -> Seq<char>
    decreases fields.len(),
{
    if fields.len() == 0 {
        Seq::empty()
    } else if fields.len() == 1 {
        fields[0].0 + ": "@ + crate::types::codec_expr(fields[0].1, m)
    } else {
        inline_fields(fields.drop_last(), m) + ", "@ + fields.last().0 + ": "@
            + crate::types::codec_expr(fields.last().1, m)
    }
}

/// The positional fields of a tuple-shaped variant: `_0: expr, _1: expr`.
pub open spec fn tuple_fields(tys: Seq<TypeDefV>, m: Seq<(Seq<char>, Seq<char>)>) -> Seq<char>
    decreases tys.len(),
{
    if tys.len() == 0 {
        Seq::empty()
    } else if tys.len() == 1 {
        seq!['_'] + crate::strutil::dec_str(0) + ": "@ + crate::types::codec_expr(tys[0], m)
    } else {
        tuple_fields(tys.drop_last(), m) + ", "@ + seq!['_'] + crate::strutil::dec_str(
            (tys.len() - 1) as nat,
        ) + ": "@ + crate::types::codec_expr(tys.last(), m)
    }
}

/// One variant line of an enum codec.
pub open spec fn variant_line(v: EnumVariantV, m: Seq<(Seq<char>, Seq<char>)>) -> Seq<char> {
    match v {
        EnumVariantV::Unit(name) => "  "@ + name + ": r.unit,\n"@,
        EnumVariantV::Tuple(name, tys) => "  "@ + name + ": r.struct({ "@ + tuple_fields(tys, m)
            + " }),\n"@,
        EnumVariantV::Struct(name, fields) => "  "@ + name + ": r.struct({ "@ + inline_fields(
            fields,
            m,
        ) + " }),\n"@,
    }
}

pub open spec fn variant_lines(vs: Seq<EnumVariantV>, m: Seq<(Seq<char>, Seq<char>)>) -> Seq<
    char,
>
    decreases vs.len(),
{
    if vs.len() == 0 {
        Seq::empty()
    } else {
        variant_lines(vs.drop_last(), m) + variant_line(vs.last(), m)
    }
}

/// One member line of a union's typed interface.
pub open spec fn iface_lines(vs: Seq<UnionVariantV>) -> Seq<char>
    decreases vs.len(),
{
    if vs.len() == 0 {
        Seq::empty()
    } else {
        iface_lines(vs.drop_last()) + "  "@ + vs.last().name + ": "@ + crate::types::ts_type(
            vs.last().ty,
        ) + ";\n"@
    }
}

/// One variant line of a union codec.
pub open spec fn union_lines(vs: Seq<UnionVariantV>, m: Seq<(Seq<char>, Seq<char>)>) -> Seq<
    char,
>
    decreases vs.len(),
{
    if vs.len() == 0 {
        Seq::empty()
    } else {
        union_lines(vs.drop_last(), m) + "    "@ + vs.last().name + ": "@
            + crate::types::codec_expr(vs.last().ty, m) + ",\n"@
    }
}

/// The typed declaration that accompanies a codec constant.
pub open spec fn typed_tail(name: Seq<char>, archived: Seq<char>) -> Seq<char> {
    "\n\nexport type "@ + name + " = r.Infer<typeof "@ + archived + ">;"@
}

/// The rendered block of one entry.
pub open spec fn entry_block(
    e: TypeEntryV,
    m: Seq<(Seq<char>, Seq<char>)>,
    typed: bool,
) -> Seq<char> {
    let name = e.name;
    let archived = entry_archived(e);
    match e.kind {
        TypeKindV::Struct(fields) => "export const "@ + archived + " = r.struct({\n"@
            + field_lines(fields, m) + "});"@ + if typed {
            typed_tail(name, archived)
        } else {
            Seq::empty()
        },
        TypeKindV::Enum(vs) => "export const "@ + archived + " = r.taggedEnum({\n"@
            + variant_lines(vs, m) + "});"@ + if typed {
            typed_tail(name, archived)
        } else {
            Seq::empty()
        },
        TypeKindV::Union(vs) => (if typed {
            "export interface "@ + name + "Variants {\n"@ + iface_lines(vs) + "}\n\n"@
        } else {
            Seq::empty()
        }) + "// Union codec for "@ + name
            + "\n// Note: You need to provide a discriminate function based on your data format\n"@
            + "export const "@ + archived
            + " = r.union(\n  // discriminate: (reader, offset) => keyof "@ + name
            + "Variants\n  (reader, offset) => { throw new Error('Discriminate function not implemented for "@
            + name + "'); },\n  {\n"@ + union_lines(vs, m) + "  }\n);"@ + if typed {
            typed_tail(name, archived)
        } else {
            Seq::empty()
        },
        TypeKindV::Alias(t) => "// Type alias: "@ + name + "\n"@ + (if typed {
            "export type "@ + name + " = "@ + crate::types::ts_type(t) + ";\n"@
        } else {
            Seq::empty()
        }) + "export const "@ + archived + " = "@ + crate::types::codec_expr(t, m) + ";"@,
    }
}

/// The blocks of the entries at `order`'s indices, each followed by a
/// blank line.
pub open spec fn blocks_text(
    s: Seq<TypeEntryV>,
    order: Seq<int>,
    m: Seq<(Seq<char>, Seq<char>)>,
    typed: bool,
) -> Seq<char>
    decreases order.len(),
{
    if order.len() == 0 {
        Seq::empty()
    } else {
        blocks_text(s, order.drop_last(), m, typed) + (if 0 <= order.last() < s.len() {
            entry_block(s[order.last()], m, typed) + "\n\n"@
        } else {
            Seq::empty()
        })
    }
}

/// The header comment of the artifact.
pub open spec fn header_text(h: Option<Seq<char>>) -> Seq<char> {
    match h {
        Option::Some(t) => "/**\n * "@ + crate::strutil::replace_all(
            t,
            seq!['\n'],
            "\n * "@,
        ) + "\n */\n\n"@,
        Option::None => "/**\n * Codec bindings for archived types.\n */\n\n"@,
    }
}

/// The import block: the fixed runtime import plus the merged import
/// statements of every entry, trailing whitespace dropped.
pub open spec fn import_block(s: Seq<TypeEntryV>) -> Seq<char> {
    crate::strutil::trim_end(
        "import * as r from 'rkyv-js';\n"@ + crate::types::import_block_body(all_imports(s)),
    )
}

/// The whole artifact for a generator state: header, import block, then
/// every entry's block in emission order.  A pure function of the state.
pub open spec fn spec_generate(g: CodeGeneratorV) -> Seq<char> {
    crate::strutil::trim_end(
        header_text(g.header) + import_block(g.entries) + "\n\n"@ + blocks_text(
            g.entries,
            emission_order(g.entries),
            archived_map(g.entries),
            g.typed_output,
        ),
    ) + "\n"@
}


/// Render the indented field lines of a struct codec.
fn render_field_lines(
    fields: &Vec<(String, TypeDef)>,
    names: &crate::types::NameMap,
) -> (r: String)
    ensures
        r@ == field_lines(fields_view(fields@), names@),
{
    let ghost fv = fields_view(fields@);
    let mut out = String::new();
    let n = fields.len();
    let mut i: usize = 0;
    proof {
        lemma_fields_view_props(fields@);
        assert(fv.take(0) =~= Seq::empty());
        assert(out@ =~= field_lines(fv.take(0), names@));
    }
    while i < n
        invariant
            i <= n,
            n == fields.len(),
            fv == fields_view(fields@),
            fv.len() == n,
            forall|j: int|
                0 <= j < n ==> fv[j] == (fields@[j].0@, crate::types::td_view(fields@[j].1)),
            out@ == field_lines(fv.take(i as int), names@),
        decreases n - i,
    {
        let expr = fields[i].1.resolve_codec_expr(names);
        out.append("  ");
        out.append(fields[i].0.as_str());
        out.append(": ");
        out.append(expr.as_str());
        out.append(",\n");
        proof {
            assert(fv.take(i + 1).drop_last() =~= fv.take(i as int));
            assert(fv.take(i + 1).last() == fv[i as int]);
        }
        i = i + 1;
    }
    proof {
        assert(fv.take(n as int) =~= fv);
    }
    out
}

/// Render the inline fields of a struct-shaped variant.
fn render_inline_fields(
    fields: &Vec<(String, TypeDef)>,
    names: &crate::types::NameMap,
) -> (r: String)
    ensures
        r@ == inline_fields(fields_view(fields@), names@),
{
    let ghost fv = fields_view(fields@);
    let mut out = String::new();
    let n = fields.len();
    let mut i: usize = 0;
    proof {
        lemma_fields_view_props(fields@);
        assert(fv.take(0) =~= Seq::empty());
        assert(out@ =~= inline_fields(fv.take(0), names@));
    }
    while i < n
        invariant
            i <= n,
            n == fields.len(),
            fv == fields_view(fields@),
            fv.len() == n,
            forall|j: int|
                0 <= j < n ==> fv[j] == (fields@[j].0@, crate::types::td_view(fields@[j].1)),
            out@ == inline_fields(fv.take(i as int), names@),
        decreases n - i,
    {
        let expr = fields[i].1.resolve_codec_expr(names);
        if i > 0 {
            out.append(", ");
        }
        out.append(fields[i].0.as_str());
        out.append(": ");
        out.append(expr.as_str());
        proof {
            assert(fv.take(i + 1).drop_last() =~= fv.take(i as int));
            assert(fv.take(i + 1).last() == fv[i as int]);
            if i == 0 {
                assert(fv.take(1)[0] == fv[0]);
                assert(inline_fields(fv.take(1), names@) == fv[0].0 + ": "@
                    + crate::types::codec_expr(fv[0].1, names@));
                assert(Seq::<char>::empty() + fv[0].0 + ": "@ + crate::types::codec_expr(
                    fv[0].1,
                    names@,
                ) =~= fv[0].0 + ": "@ + crate::types::codec_expr(fv[0].1, names@));
            }
        }
        i = i + 1;
    }
    proof {
        assert(fv.take(n as int) =~= fv);
    }
    out
}

/// Render the positional fields of a tuple-shaped variant.
fn render_tuple_fields(tys: &Vec<TypeDef>, names: &crate::types::NameMap) -> (r: String)
    ensures
        r@ == tuple_fields(tds_view(tys@), names@),
{
    let ghost tv = tds_view(tys@);
    let mut out = String::new();
    let n = tys.len();
    let mut i: usize = 0;
    proof {
        crate::types::lemma_tds_view_props(tys@);
        assert(tv.take(0) =~= Seq::empty());
        assert(out@ =~= tuple_fields(tv.take(0), names@));
    }
    while i < n
        invariant
            i <= n,
            n == tys.len(),
            tv == tds_view(tys@),
            tv.len() == n,
            forall|j: int| 0 <= j < n ==> tv[j] == crate::types::td_view(tys@[j]),
            out@ == tuple_fields(tv.take(i as int), names@),
        decreases n - i,
    {
        let expr = tys[i].resolve_codec_expr(names);
        let num = crate::strutil::usize_to_string(i);
        if i > 0 {
            out.append(", ");
        }
        out.append("_");
        out.append(num.as_str());
        out.append(": ");
        out.append(expr.as_str());
        proof {
            reveal_strlit("_");
            assert("_"@ =~= seq!['_']);
            assert(tv.take(i + 1).drop_last() =~= tv.take(i as int));
            assert(tv.take(i + 1).last() == tv[i as int]);
            assert(tv.take(i + 1).len() - 1 == i as int);
            if i == 0 {
                assert(tv.take(1)[0] == tv[0]);
                assert(tuple_fields(tv.take(1), names@) == seq!['_'] + crate::strutil::dec_str(
                    0,
                ) + ": "@ + crate::types::codec_expr(tv[0], names@));
                assert(Seq::<char>::empty() + "_"@ =~= seq!['_']);
            }
        }
        i = i + 1;
    }
    proof {
        assert(tv.take(n as int) =~= tv);
    }
    out
}

/// Render one variant line of an enum codec.
fn render_variant_line(v: &EnumVariant, names: &crate::types::NameMap) -> (r: String)
    ensures
        r@ == variant_line(v@, names@),
{
    let mut out = "  ".to_owned();
    match v {
        EnumVariant::Unit(name) => {
            out.append(name.as_str());
            out.append(": r.unit,\n");
        },
        EnumVariant::Tuple(name, tys) => {
            let joined = render_tuple_fields(tys, names);
            out.append(name.as_str());
            out.append(": r.struct({ ");
            out.append(joined.as_str());
            out.append(" }),\n");
        },
        EnumVariant::Struct(name, fields) => {
            let joined = render_inline_fields(fields, names);
            out.append(name.as_str());
            out.append(": r.struct({ ");
            out.append(joined.as_str());
            out.append(" }),\n");
        },
    }
    out
}

/// Render the rendered block of one entry.
fn render_entry_block(e: &TypeEntry, names: &crate::types::NameMap, typed: bool) -> (r: String)
    ensures
        r@ == entry_block(e@, names@, typed),
{
    let archived = e.archived_name_or_default();
    match &e.kind {
        TypeKind::Struct(fields) => {
            let mut out = "export const ".to_owned();
            out.append(archived.as_str());
            out.append(" = r.struct({\n");
            let lines = render_field_lines(fields, names);
            out.append(lines.as_str());
            out.append("});");
            if typed {
                out.append("\n\nexport type ");
                out.append(e.name.as_str());
                out.append(" = r.Infer<typeof ");
                out.append(archived.as_str());
                out.append(">;");
            } else {
                proof {
                    assert(out@ + Seq::<char>::empty() =~= out@);
                }
            }
            out
        },
        TypeKind::Enum(vs) => {
            let mut out = "export const ".to_owned();
            out.append(archived.as_str());
            out.append(" = r.taggedEnum({\n");
            let ghost vv = variants_view(vs@);
            let n = vs.len();
            let mut i: usize = 0;
            let ghost mid = out@;
            proof {
                lemma_variants_view_props(vs@);
                assert(vv.take(0) =~= Seq::empty());
                assert(out@ + variant_lines(vv.take(0), names@) =~= out@);
            }
            while i < n
                invariant
                    i <= n,
                    n == vs.len(),
                    vv == variants_view(vs@),
                    vv.len() == n,
                    forall|j: int| 0 <= j < n ==> vv[j] == vs@[j]@,
                    out@ == mid + variant_lines(vv.take(i as int), names@),
                decreases n - i,
            {
                let line = render_variant_line(&vs[i], names);
                out.append(line.as_str());
                proof {
                    assert(vv.take(i + 1).drop_last() =~= vv.take(i as int));
                    assert(vv.take(i + 1).last() == vv[i as int]);
                }
                i = i + 1;
            }
            proof {
                assert(vv.take(n as int) =~= vv);
            }
            out.append("});");
            if typed {
                out.append("\n\nexport type ");
                out.append(e.name.as_str());
                out.append(" = r.Infer<typeof ");
                out.append(archived.as_str());
                out.append(">;");
            } else {
                proof {
                    assert(out@ + Seq::<char>::empty() =~= out@);
                }
            }
            out
        },
        TypeKind::Union(vs) => {
            let ghost vv = uvariants_view(vs@);
            let n = vs.len();
            proof {
                lemma_uvariants_view_props(vs@);
            }
            let mut out = String::new();
            if typed {
                out.append("export interface ");
                out.append(e.name.as_str());
                out.append("Variants {\n");
                let ghost mid0 = out@;
                let mut i: usize = 0;
                proof {
                    assert(vv.take(0) =~= Seq::empty());
                    assert(out@ + iface_lines(vv.take(0)) =~= out@);
                }
                while i < n
                    invariant
                        i <= n,
                        n == vs.len(),
                        vv == uvariants_view(vs@),
                        vv.len() == n,
                        forall|j: int| 0 <= j < n ==> vv[j] == vs@[j]@,
                        out@ == mid0 + iface_lines(vv.take(i as int)),
                    decreases n - i,
                {
                    let t = vs[i].ty.to_ts_type();
                    out.append("  ");
                    out.append(vs[i].name.as_str());
                    out.append(": ");
                    out.append(t.as_str());
                    out.append(";\n");
                    proof {
                        assert(vv.take(i + 1).drop_last() =~= vv.take(i as int));
                        assert(vv.take(i + 1).last() == vv[i as int]);
                    }
                    i = i + 1;
                }
                proof {
                    assert(vv.take(n as int) =~= vv);
                }
                out.append("}\n\n");
            } else {
                proof {
                    assert(Seq::<char>::empty() + Seq::<char>::empty() =~= Seq::<
                        char,
                    >::empty());
                }
            }
            out.append("// Union codec for ");
            out.append(e.name.as_str());
            out.append(
                "\n// Note: You need to provide a discriminate function based on your data format\n",
            );
            out.append("export const ");
            out.append(archived.as_str());
            out.append(" = r.union(\n  // discriminate: (reader, offset) => keyof ");
            out.append(e.name.as_str());
            out.append(
                "Variants\n  (reader, offset) => { throw new Error('Discriminate function not implemented for ",
            );
            out.append(e.name.as_str());
            out.append("'); },\n  {\n");
            let ghost mid = out@;
            let mut i: usize = 0;
            proof {
                assert(vv.take(0) =~= Seq::empty());
                assert(out@ + union_lines(vv.take(0), names@) =~= out@);
            }
            while i < n
                invariant
                    i <= n,
                    n == vs.len(),
                    vv == uvariants_view(vs@),
                    vv.len() == n,
                    forall|j: int| 0 <= j < n ==> vv[j] == vs@[j]@,
                    out@ == mid + union_lines(vv.take(i as int), names@),
                decreases n - i,
            {
                let expr = vs[i].ty.resolve_codec_expr(names);
                out.append("    ");
                out.append(vs[i].name.as_str());
                out.append(": ");
                out.append(expr.as_str());
                out.append(",\n");
                proof {
                    assert(vv.take(i + 1).drop_last() =~= vv.take(i as int));
                    assert(vv.take(i + 1).last() == vv[i as int]);
                }
                i = i + 1;
            }
            proof {
                assert(vv.take(n as int) =~= vv);
            }
            out.append("  }\n);");
            if typed {
                out.append("\n\nexport type ");
                out.append(e.name.as_str());
                out.append(" = r.Infer<typeof ");
                out.append(archived.as_str());
                out.append(">;");
            } else {
                proof {
                    assert(out@ + Seq::<char>::empty() =~= out@);
                }
            }
            out
        },
        TypeKind::Alias(t) => {
            let mut out = "// Type alias: ".to_owned();
            out.append(e.name.as_str());
            out.append("\n");
            if typed {
                let tt = t.to_ts_type();
                out.append("export type ");
                out.append(e.name.as_str());
                out.append(" = ");
                out.append(tt.as_str());
                out.append(";\n");
            } else {
                proof {
                    assert(out@ + Seq::<char>::empty() =~= out@);
                }
            }
            let expr = t.resolve_codec_expr(names);
            out.append("export const ");
            out.append(archived.as_str());
            out.append(" = ");
            out.append(expr.as_str());
            out.append(";");
            out
        },
    }
}

impl CodeGenerator {
    /// The import block of the artifact: the fixed runtime import plus one
    /// merged import statement per external module any entry touches.
    fn generate_import_block(&self) -> (r: String)
        ensures
            r@ == import_block(self@.entries),
    {
        let ghost sv = entries_view(self.entries@);
        let mut imports: Vec<Import> = Vec::new();
        let n = self.entries.len();
        let mut i: usize = 0;
        proof {
            lemma_entries_view_props(self.entries@);
            assert(sv.take(0) =~= Seq::empty());
            assert(crate::types::imports_view(imports@) =~= all_imports(sv.take(0)));
        }
        while i < n
            invariant
                i <= n,
                n == self.entries.len(),
                sv == entries_view(self.entries@),
                sv.len() == n,
                forall|j: int| 0 <= j < n ==> sv[j] == self.entries@[j]@,
                crate::types::imports_view(imports@) == all_imports(sv.take(i as int)),
            decreases n - i,
        {
            entry_collect_imports(&self.entries[i], &mut imports);
            proof {
                assert(sv.take(i + 1).drop_last() =~= sv.take(i as int));
                assert(sv.take(i + 1).last() == sv[i as int]);
            }
            i = i + 1;
        }
        proof {
            assert(sv.take(n as int) =~= sv);
        }
        let mut out = "import * as r from 'rkyv-js';\n".to_owned();
        let body = crate::types::generate_imports(&imports);
        out.append(body.as_str());
        crate::strutil::str_trim_end(out.as_str())
    }

    /// Render the whole artifact: header, import block, then every entry's
    /// block, each nested type resolved through the archived-name map and
    /// the entries ordered so referenced entries come first wherever the
    /// reference graph allows it.  The output is a pure function of the
    /// generator's state: no entry or registry mutation occurs.
    pub fn generate(&self) -> (r: String)
        ensures
            r@ == spec_generate(self@),
    {
        let ghost sv = entries_view(self.entries@);
        let names = self.build_archived_names();
        let mut out: String;
        match &self.header {
            Option::Some(h) => {
                out = "/**\n * ".to_owned();
                let body = crate::strutil::str_replace_all(h.as_str(), "\n", "\n * ");
                out.append(body.as_str());
                out.append("\n */\n\n");
                proof {
                    reveal_strlit("\n");
                    assert("\n"@ =~= seq!['\n']);
                }
            },
            Option::None => {
                out = "/**\n * Codec bindings for archived types.\n */\n\n".to_owned();
            },
        }
        proof {
            assert(out@ == header_text(self@.header));
        }
        let imports_text = self.generate_import_block();
        out.append(imports_text.as_str());
        out.append("\n\n");
        let order = emission_order_exec(&self.entries);
        let ghost ov = ints_view(order@);
        let ghost mid = out@;
        let n = order.len();
        let mut k: usize = 0;
        proof {
            lemma_entries_view_props(self.entries@);
            assert(ov.take(0) =~= Seq::empty());
            assert(out@ + blocks_text(sv, ov.take(0), names@, self.typed_output) =~= out@);
        }
        while k < n
            invariant
                k <= n,
                n == order.len(),
                sv == entries_view(self.entries@),
                sv.len() == self.entries.len(),
                forall|j: int| 0 <= j < sv.len() ==> sv[j] == self.entries@[j]@,
                ov == ints_view(order@),
                ov.len() == n,
                forall|j: int| 0 <= j < n ==> 0 <= #[trigger] ov[j] < sv.len(),
                forall|j: int| 0 <= j < n ==> #[trigger] ov[j] == order@[j] as int,
                out@ == mid + blocks_text(sv, ov.take(k as int), names@, self.typed_output),
            decreases n - k,
        {
            let idx = order[k];
            proof {
                assert(ov[k as int] == order@[k as int] as int);
                assert(0 <= ov[k as int] < sv.len());
            }
            let block = render_entry_block(&self.entries[idx], &names, self.typed_output);
            out.append(block.as_str());
            out.append("\n\n");
            proof {
                assert(ov.take(k + 1).drop_last() =~= ov.take(k as int));
                assert(ov.take(k + 1).last() == ov[k as int]);
            }
            k = k + 1;
        }
        proof {
            assert(ov.take(n as int) =~= ov);
        }
        let mut trimmed = crate::strutil::str_trim_end(out.as_str());
        trimmed.append("\n");
        trimmed
    }
}


impl CodeGenerator {
    /// Add every marked declaration of one source unit: the unit's alias
    /// context is built from all its import statements and type aliases,
    /// each declaration carrying a marker derive becomes an entry, remote
    /// projections are skipped, and a declaration whose field or variant
    /// types fail to map is dropped.
    pub fn add_unit(&mut self, unit: &crate::source::SourceUnit)
        requires
            gen_wf(old(self)@),
        ensures
            gen_wf(final(self)@),
            final(self)@ == crate::extract::spec_add_unit(old(self)@, *unit),
    {
        let ctx = crate::extract::build_ctx(unit);
        let n = unit.items.len();
        let mut i: usize = 0;
        proof {
            assert(unit.items@.take(0) =~= Seq::empty());
        }
        while i < n
            invariant
                i <= n,
                n == unit.items.len(),
                gen_wf(self@),
                ctx@ == crate::extract::unit_ctx(unit.items@),
                self@ == crate::extract::apply_items(
                    old(self)@,
                    unit.items@.take(i as int),
                    ctx@,
                ),
                self@.markers == old(self)@.markers,
                self@.registry == old(self)@.registry,
            decreases n - i,
        {
            let ghost pre = self@;
            match &unit.items[i] {
                crate::source::RawItem::Decl(d) => {
                    if crate::extract::decl_is_selected(d, &ctx, &self.markers) {
                        match &d.remote_target {
                            Option::Some(target) => {
                                // a remote projection describes a type defined
                                // elsewhere; validate its target, never emit it
                                let full = crate::extract::join_path_exec(target);
                                let known = if self.registry.contains(full.as_str()) {
                                    true
                                } else {
                                    let short = crate::extract::last_path_seg_exec(
                                        full.as_str(),
                                    );
                                    self.registry.contains(short.as_str())
                                };
                                if !known {
                                    let mut msg = "remote projection `".to_owned();
                                    msg.append(d.name.as_str());
                                    msg.append("` targets `");
                                    msg.append(full.as_str());
                                    msg.append("`, which is not registered");
                                    self.push_diagnostic(msg);
                                    proof {
                                        assert(self@.diagnostics =~= pre.diagnostics.push(
                                            crate::extract::diag_unregistered_remote(
                                                d.name@,
                                                full@,
                                            ),
                                        ));
                                    }
                                }
                            },
                            Option::None => {
                                match crate::extract::decl_to_entry(d, &self.registry, &ctx) {
                                    Option::Some(e) => {
                                        proof {
                                            lemma_entry_insert_sorted(pre.entries, e@);
                                        }
                                        insert_entry(&mut self.entries, e);
                                    },
                                    Option::None => {
                                        // a field or variant type failed to map;
                                        // the declaration is dropped, on record
                                        let mut msg = "declaration `".to_owned();
                                        msg.append(d.name.as_str());
                                        msg.append(
                                            "` was dropped: a field or variant type could not be mapped",
                                        );
                                        self.push_diagnostic(msg);
                                        proof {
                                            assert(self@.diagnostics =~= pre.diagnostics.push(
                                                crate::extract::diag_dropped_decl(d.name@),
                                            ));
                                        }
                                    },
                                }
                            },
                        }
                    }
                },
                _ => {},
            }
            proof {
                assert(unit.items@.take(i + 1).drop_last() =~= unit.items@.take(i as int));
                assert(unit.items@.take(i + 1).last() == unit.items@[i as int]);
            }
            i = i + 1;
        }
        proof {
            assert(unit.items@.take(n as int) =~= unit.items@);
        }
    }

    /// Parse one source unit and add every marked declaration in it.  A
    /// unit that fails to parse is skipped: the generator is unchanged and
    /// later units can still be added.
    pub fn add_source_str(&mut self, source: &str)
        requires
            gen_wf(old(self)@),
        ensures
            gen_wf(final(self)@),
            final(self)@ == (match crate::parse::parsed_source(source@) {
                Option::Some(u) => crate::extract::spec_add_unit(old(self)@, u),
                Option::None => crate::extract::with_diag(
                    old(self)@,
                    crate::extract::diag_parse_failure(),
                ),
            }),
    {
        match crate::parse::parse_source(source) {
            Option::Some(unit) => {
                self.add_unit(&unit);
            },
            Option::None => {
                let ghost pre = self@;
                self.push_diagnostic("a source unit failed to parse and was skipped".to_owned());
                proof {
                    assert(self@.diagnostics =~= pre.diagnostics.push(
                        crate::extract::diag_parse_failure(),
                    ));
                }
            },
        }
    }

    /// The non-fatal diagnostics collected so far: remote projections whose
    /// target is not registered, declarations dropped because a type failed
    /// to map, and source units that failed to parse.
    pub fn diagnostics(&self) -> (r: &Vec<String>)
        ensures
            strs_view(r@) == self@.diagnostics,
    {
        &self.diagnostics
    }

    /// Record one non-fatal diagnostic.
    fn push_diagnostic(&mut self, msg: String)
        ensures
            final(self)@ == (CodeGeneratorV {
                diagnostics: old(self)@.diagnostics.push(msg@),
                ..old(self)@
            }),
    {
        let ghost pre = self.diagnostics@;
        self.diagnostics.push(msg);
        proof {
            assert(self.diagnostics@.drop_last() =~= pre);
        }
    }
}

} // verus!
