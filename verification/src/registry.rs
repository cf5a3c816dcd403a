//! The type registry: a table mapping external type names to codec
//! templates, seeded with the builtin mappings the archive format supports.
//!
//! Keying policy: builtin mappings are keyed by the type's short name (the
//! last path segment, e.g. `Uuid`); user mappings may be keyed either by a
//! short name or by a fully-qualified path (e.g. `my_crate::CustomVec`).
//! Extraction looks a resolved path up first in full, then by its trailing
//! segment, so both kinds of keys are honoured.

use vstd::prelude::*;

use crate::strutil::str_eq;
use crate::types::{
    ext_view, tds_view, ExternalType, ExternalTypeV, Import, ImportV, TypeDef, TypeDefV,
};

verus! {

/// How the generic arguments of a matched declaration are pulled out and
/// handed to the template.
#[derive(Debug, Clone, Copy, PartialEq, Eq, Structural)]
pub enum GenericShape {
    /// No generic arguments (e.g. `Uuid`).
    NoArgs,
    /// A single type argument: `Foo<T>`.
    Single,
    /// Two type arguments: `Foo<K, V>`.
    Pair,
    /// A single array argument: `Foo<[T; N]>`; the length is discarded.
    Array,
    /// A type plus a non-type argument: `Foo<T, N>`; `N` is discarded.
    TypeAndConst,
}

/// A registered mapping: how a matched type name becomes an external
/// [`TypeDef`].
#[derive(Debug)]
pub struct TypeMapping {
    /// Template for the codec expression; `{0}`, `{1}`, ... are placeholders.
    pub codec_expr: String,
    /// Template for the target-language type.
    pub ts_type: String,
    /// The import required by this codec, if any.
    pub import: Option<Import>,
    /// How to pull generic arguments out of a matched declaration.
    pub generics: GenericShape,
}

/// Ghost model of a [`TypeMapping`].
pub struct TypeMappingV {
    pub codec_expr: Seq<char>,
    pub ts_type: Seq<char>,
    pub import: Option<ImportV>,
    pub generics: GenericShape,
}

impl View for TypeMapping {
    type V = TypeMappingV;

    open spec fn view(&self) -> TypeMappingV {
        TypeMappingV {
            codec_expr: self.codec_expr@,
            ts_type: self.ts_type@,
            import: match self.import {
                Option::Some(i) => Option::Some(i@),
                Option::None => Option::None,
            },
            generics: self.generics,
        }
    }
}

impl Clone for TypeMapping {
    fn clone(&self) -> (r: Self)
        ensures
            r@ == self@,
    {
        TypeMapping {
            codec_expr: self.codec_expr.clone(),
            ts_type: self.ts_type.clone(),
            import: match &self.import {
                Option::Some(i) => Option::Some(i.clone()),
                Option::None => Option::None,
            },
            generics: self.generics,
        }
    }
}

/// Whether `c` is a decimal digit.
pub open spec fn is_dec_digit(c: char) -> bool {
    48 <= (c as u32) <= 57
}

/// The numeric value of a digit character.
pub open spec fn digit_val(c: char) -> nat {
    ((c as u32) - 48) as nat
}

/// The arity a template demands: one more than the highest placeholder
/// index `{i}` occurring in it, or zero if none occurs.
pub open spec fn template_arity(s: Seq<char>) -> nat
    decreases s.len(),
{
    if s.len() < 3 {
        0
    } else {
        let rest = template_arity(s.skip(1));
        if s[0] == '{' && is_dec_digit(s[1]) && s[2] == '}' {
            if digit_val(s[1]) + 1 > rest {
                digit_val(s[1]) + 1
            } else {
                rest
            }
        } else {
            rest
        }
    }
}

/// The arity of a mapping: the highest placeholder index + 1 found across
/// both its templates — a pure function of the template strings.
pub open spec fn mapping_arity(m: TypeMappingV) -> nat {
    if template_arity(m.codec_expr) > template_arity(m.ts_type) {
        template_arity(m.codec_expr)
    } else {
        template_arity(m.ts_type)
    }
}

/// Exec counterpart of [`template_arity`].
fn template_arity_exec(s: &str) -> (r: usize)
    ensures
        r as nat == template_arity(s@),
{
    let len = s.unicode_len();
    let mut best: usize = 0;
    let mut i: usize = 0;
    proof {
        assert(s@.skip(0) =~= s@);
    }
    while i < len
        invariant
            i <= len,
            len == s@.len(),
            best <= 10,
            template_arity(s@) == (if best as nat > template_arity(s@.skip(i as int)) {
                best as nat
            } else {
                template_arity(s@.skip(i as int))
            }),
        decreases len - i,
    {
        proof {
            assert(s@.skip(i as int).len() == len - i);
        }
        if len - i >= 3 {
            let c0 = s.get_char(i);
            let c1 = s.get_char(i + 1);
            let c2 = s.get_char(i + 2);
            proof {
                assert(s@.skip(i as int)[0] == s@[i as int]);
                assert(s@.skip(i as int)[1] == s@[i + 1]);
                assert(s@.skip(i as int)[2] == s@[i + 2]);
                assert(s@.skip(i as int).skip(1) =~= s@.skip(i + 1));
            }
            let c1u = c1 as u32;
            if c0 == '{' && 48 <= c1u && c1u <= 57 && c2 == '}' {
                let d = (c1u - 48) as usize;
                if d + 1 > best {
                    best = d + 1;
                }
            }
        } else {
            proof {
                assert(s@.skip(i as int).skip(1) =~= s@.skip(i + 1));
                assert(s@.skip(i + 1).len() < 3);
            }
        }
        i = i + 1;
    }
    proof {
        assert(s@.skip(i as int).len() == 0);
        assert(template_arity(s@.skip(i as int)) == 0);
    }
    best
}

impl TypeMapping {
    /// The arity this mapping's templates demand.
    pub fn arity(&self) -> (r: usize)
        ensures
            r as nat == mapping_arity(self@),
    {
        let a = template_arity_exec(self.codec_expr.as_str());
        let b = template_arity_exec(self.ts_type.as_str());
        if a > b {
            a
        } else {
            b
        }
    }

    /// Stamp this template into an external [`TypeDef`] with the given
    /// resolved type parameters.
    pub fn to_type_def(&self, type_params: Vec<TypeDef>) -> (r: TypeDef)
        ensures
            r@ == (TypeDefV::External(
                ExternalTypeV {
                    codec_expr: self@.codec_expr,
                    ts_type: self@.ts_type,
                    import: self@.import,
                    type_params: tds_view(type_params@),
                },
            )),
    {
        let c = self.clone();
        let TypeMapping { codec_expr, ts_type, import, generics: _ } = c;
        proof {
            assert(codec_expr@ == self@.codec_expr);
            assert(ts_type@ == self@.ts_type);
        }
        let e = ExternalType { codec_expr, ts_type, import, type_params };
        proof {
            assert(ext_view(e).codec_expr == self@.codec_expr);
            assert(ext_view(e).ts_type == self@.ts_type);
            assert(ext_view(e).import == self@.import);
            assert(ext_view(e).type_params == tds_view(type_params@));
        }
        TypeDef::External(e)
    }
}

// ------------------------------------------------------------------
// The registry proper
// ------------------------------------------------------------------

/// Last match of key `k` in the registry's mapping list: a later
/// registration shadows an earlier one for the same name.
pub open spec fn reg_lookup(s: Seq<(Seq<char>, TypeMappingV)>, k: Seq<char>) -> Option<
    TypeMappingV,
>
    decreases s.len(),
{
    if s.len() == 0 {
        Option::None
    } else if s.last().0 == k {
        Option::Some(s.last().1)
    } else {
        reg_lookup(s.drop_last(), k)
    }
}

/// The mapping list with every entry named `k` removed.
pub open spec fn reg_remove(s: Seq<(Seq<char>, TypeMappingV)>, k: Seq<char>) -> Seq<
    (Seq<char>, TypeMappingV),
>
    decreases s.len(),
{
    if s.len() == 0 {
        s
    } else if s.last().0 == k {
        reg_remove(s.drop_last(), k)
    } else {
        reg_remove(s.drop_last(), k).push(s.last())
    }
}

/// A registry of type-name-to-mapping associations.
#[derive(Debug)]
pub struct TypeRegistry {
    mappings: Vec<(String, TypeMapping)>,
}

pub open spec fn rm_view(s: Seq<(String, TypeMapping)>) -> Seq<(Seq<char>, TypeMappingV)>
    decreases s,
{
    if s.len() == 0 {
        Seq::empty()
    } else {
        rm_view(s.drop_last()).push((s.last().0@, s.last().1@))
    }
}

pub proof fn lemma_rm_view_props(s: Seq<(String, TypeMapping)>)
    ensures
        rm_view(s).len() == s.len(),
        forall|i: int|
            0 <= i < s.len() ==> rm_view(s)[i] == (s[i].0@, s[i].1@),
    decreases s,
{
    if s.len() > 0 {
        lemma_rm_view_props(s.drop_last());
    }
}

impl View for TypeRegistry {
    type V = Seq<(Seq<char>, TypeMappingV)>;

    closed spec fn view(&self) -> Seq<(Seq<char>, TypeMappingV)> {
        rm_view(self.mappings@)
    }
}

impl TypeRegistry {
    /// An empty registry with no mappings.
    pub fn new() -> (r: TypeRegistry)
        ensures
            r@ == Seq::<(Seq<char>, TypeMappingV)>::empty(),
    {
        TypeRegistry { mappings: Vec::new() }
    }

    /// Register a mapping for a type name; a mapping already registered
    /// under the same name is shadowed.
    pub fn register(&mut self, name: &str, mapping: TypeMapping)
        ensures
            final(self)@ == old(self)@.push((name@, mapping@)),
    {
        let ghost pre = self.mappings@;
        self.mappings.push((name.to_owned(), mapping));
        proof {
            assert(self.mappings@.drop_last() =~= pre);
        }
    }

    /// Look up the mapping registered for `name`.
    pub fn get(&self, name: &str) -> (r: Option<&TypeMapping>)
        ensures
            match r {
                Option::Some(m) => reg_lookup(self@, name@) == Option::Some(m@),
                Option::None => reg_lookup(self@, name@) is None,
            },
    {
        let n = self.mappings.len();
        let mut i: usize = n;
        proof {
            lemma_rm_view_props(self.mappings@);
            assert(self@.take(n as int) =~= self@);
        }
        while i > 0
            invariant
                i <= n,
                n == self.mappings.len(),
                self@.len() == n,
                forall|j: int|
                    0 <= j < n ==> self@[j] == (self.mappings@[j].0@, self.mappings@[j].1@),
                reg_lookup(self@, name@) == reg_lookup(self@.take(i as int), name@),
            decreases i,
        {
            i = i - 1;
            proof {
                assert(self@.take(i + 1).drop_last() =~= self@.take(i as int));
                assert(self@.take(i + 1).last() == self@[i as int]);
            }
            if str_eq(self.mappings[i].0.as_str(), name) {
                return Option::Some(&self.mappings[i].1);
            }
        }
        proof {
            assert(self@.take(0) =~= Seq::<(Seq<char>, TypeMappingV)>::empty());
        }
        Option::None
    }

    /// Whether a mapping is registered for `name`.
    pub fn contains(&self, name: &str) -> (r: bool)
        ensures
            r == (reg_lookup(self@, name@) is Some),
    {
        match self.get(name) {
            Option::Some(_) => true,
            Option::None => false,
        }
    }

    /// Remove every mapping registered for `name`.
    pub fn unregister(&mut self, name: &str)
        ensures
            final(self)@ == reg_remove(old(self)@, name@),
    {
        let n = self.mappings.len();
        let mut out: Vec<(String, TypeMapping)> = Vec::new();
        let ghost pre = self@;
        proof {
            lemma_rm_view_props(self.mappings@);
            assert(pre.take(0) =~= Seq::<(Seq<char>, TypeMappingV)>::empty());
            assert(rm_view(out@) =~= reg_remove(pre.take(0), name@));
        }
        let mut i: usize = 0;
        while i < n
            invariant
                i <= n,
                n == self.mappings.len(),
                pre == rm_view(self.mappings@),
                pre.len() == n,
                forall|j: int|
                    0 <= j < n ==> pre[j] == (self.mappings@[j].0@, self.mappings@[j].1@),
                rm_view(out@) == reg_remove(pre.take(i as int), name@),
            decreases n - i,
        {
            proof {
                assert(pre.take(i + 1).drop_last() =~= pre.take(i as int));
                assert(pre.take(i + 1).last() == pre[i as int]);
            }
            if !str_eq(self.mappings[i].0.as_str(), name) {
                let ghost old_out = out@;
                let k = self.mappings[i].0.clone();
                let m = self.mappings[i].1.clone();
                out.push((k, m));
                proof {
                    assert(out@.drop_last() =~= old_out);
                }
            }
            i = i + 1;
        }
        self.mappings = out;
        proof {
            assert(pre.take(n as int) =~= pre);
        }
    }
}


/// The builtin mappings, in registration order: the external types the
/// archive format supports out of the box, keyed by their short names.
pub open spec fn builtin_mappings() -> Seq<(Seq<char>, TypeMappingV)> {
    seq![
        ("Uuid"@, TypeMappingV {
            codec_expr: "uuid"@,
            ts_type: "string"@,
            import: Option::Some(ImportV { module: "rkyv-js/lib/uuid"@, export_name: "uuid"@ }),
            generics: GenericShape::NoArgs,
        }),
        ("Bytes"@, TypeMappingV {
            codec_expr: "bytes"@,
            ts_type: "Uint8Array"@,
            import: Option::Some(ImportV { module: "rkyv-js/lib/bytes"@, export_name: "bytes"@ }),
            generics: GenericShape::NoArgs,
        }),
        ("SmolStr"@, TypeMappingV {
            codec_expr: "r.string"@,
            ts_type: "string"@,
            import: Option::None,
            generics: GenericShape::NoArgs,
        }),
        ("VecDeque"@, TypeMappingV {
            codec_expr: "r.vec({0})"@,
            ts_type: "{0}[]"@,
            import: Option::None,
            generics: GenericShape::Single,
        }),
        ("ThinVec"@, TypeMappingV {
            codec_expr: "r.vec({0})"@,
            ts_type: "{0}[]"@,
            import: Option::None,
            generics: GenericShape::Single,
        }),
        ("ArrayVec"@, TypeMappingV {
            codec_expr: "r.vec({0})"@,
            ts_type: "{0}[]"@,
            import: Option::None,
            generics: GenericShape::TypeAndConst,
        }),
        ("SmallVec"@, TypeMappingV {
            codec_expr: "r.vec({0})"@,
            ts_type: "{0}[]"@,
            import: Option::None,
            generics: GenericShape::Array,
        }),
        ("TinyVec"@, TypeMappingV {
            codec_expr: "r.vec({0})"@,
            ts_type: "{0}[]"@,
            import: Option::None,
            generics: GenericShape::Array,
        }),
        ("HashMap"@, TypeMappingV {
            codec_expr: "hashMap({0}, {1})"@,
            ts_type: "Map<{0}, {1}>"@,
            import: Option::Some(ImportV { module: "rkyv-js/lib/std-hash-map"@, export_name: "hashMap"@ }),
            generics: GenericShape::Pair,
        }),
        ("HashSet"@, TypeMappingV {
            codec_expr: "hashSet({0})"@,
            ts_type: "Set<{0}>"@,
            import: Option::Some(ImportV { module: "rkyv-js/lib/std-hash-set"@, export_name: "hashSet"@ }),
            generics: GenericShape::Single,
        }),
        ("BTreeMap"@, TypeMappingV {
            codec_expr: "btreeMap({0}, {1})"@,
            ts_type: "Map<{0}, {1}>"@,
            import: Option::Some(ImportV { module: "rkyv-js/lib/std-btree-map"@, export_name: "btreeMap"@ }),
            generics: GenericShape::Pair,
        }),
        ("BTreeSet"@, TypeMappingV {
            codec_expr: "btreeSet({0})"@,
            ts_type: "Set<{0}>"@,
            import: Option::Some(ImportV { module: "rkyv-js/lib/std-btree-set"@, export_name: "btreeSet"@ }),
            generics: GenericShape::Single,
        }),
        ("IndexMap"@, TypeMappingV {
            codec_expr: "indexMap({0}, {1})"@,
            ts_type: "Map<{0}, {1}>"@,
            import: Option::Some(ImportV { module: "rkyv-js/lib/indexmap"@, export_name: "indexMap"@ }),
            generics: GenericShape::Pair,
        }),
        ("IndexSet"@, TypeMappingV {
            codec_expr: "indexSet({0})"@,
            ts_type: "Set<{0}>"@,
            import: Option::Some(ImportV { module: "rkyv-js/lib/indexmap"@, export_name: "indexSet"@ }),
            generics: GenericShape::Single,
        }),
        ("Arc"@, TypeMappingV {
            codec_expr: "r.arc({0})"@,
            ts_type: "{0}"@,
            import: Option::None,
            generics: GenericShape::Single,
        }),
        ("Rc"@, TypeMappingV {
            codec_expr: "r.rc({0})"@,
            ts_type: "{0}"@,
            import: Option::None,
            generics: GenericShape::Single,
        }),
        ("Weak"@, TypeMappingV {
            codec_expr: "r.rcWeak({0})"@,
            ts_type: "{0} | null"@,
            import: Option::None,
            generics: GenericShape::Single,
        }),
    ]
}

impl TypeRegistry {
    /// A registry pre-populated with the builtin mappings.
    pub fn with_builtins() -> (r: TypeRegistry)
        ensures
            r@ == builtin_mappings(),
    {
        let mut registry = TypeRegistry::new();
        registry.register_builtins();
        proof {
            assert(Seq::<(Seq<char>, TypeMappingV)>::empty() + builtin_mappings()
                =~= builtin_mappings());
        }
        registry
    }

    /// Register every builtin mapping, shadowing same-named mappings.
    pub fn register_builtins(&mut self)
        ensures
            final(self)@ == old(self)@ + builtin_mappings(),
    {
        self.register(
            "Uuid",
            TypeMapping {
                codec_expr: "uuid".to_owned(),
                ts_type: "string".to_owned(),
                import: Option::Some(Import::new("rkyv-js/lib/uuid", "uuid")),
                generics: GenericShape::NoArgs,
            },
        );
        self.register(
            "Bytes",
            TypeMapping {
                codec_expr: "bytes".to_owned(),
                ts_type: "Uint8Array".to_owned(),
                import: Option::Some(Import::new("rkyv-js/lib/bytes", "bytes")),
                generics: GenericShape::NoArgs,
            },
        );
        self.register(
            "SmolStr",
            TypeMapping {
                codec_expr: "r.string".to_owned(),
                ts_type: "string".to_owned(),
                import: Option::None,
                generics: GenericShape::NoArgs,
            },
        );
        self.register(
            "VecDeque",
            TypeMapping {
                codec_expr: "r.vec({0})".to_owned(),
                ts_type: "{0}[]".to_owned(),
                import: Option::None,
                generics: GenericShape::Single,
            },
        );
        self.register(
            "ThinVec",
            TypeMapping {
                codec_expr: "r.vec({0})".to_owned(),
                ts_type: "{0}[]".to_owned(),
                import: Option::None,
                generics: GenericShape::Single,
            },
        );
        self.register(
            "ArrayVec",
            TypeMapping {
                codec_expr: "r.vec({0})".to_owned(),
                ts_type: "{0}[]".to_owned(),
                import: Option::None,
                generics: GenericShape::TypeAndConst,
            },
        );
        self.register(
            "SmallVec",
            TypeMapping {
                codec_expr: "r.vec({0})".to_owned(),
                ts_type: "{0}[]".to_owned(),
                import: Option::None,
                generics: GenericShape::Array,
            },
        );
        self.register(
            "TinyVec",
            TypeMapping {
                codec_expr: "r.vec({0})".to_owned(),
                ts_type: "{0}[]".to_owned(),
                import: Option::None,
                generics: GenericShape::Array,
            },
        );
        self.register(
            "HashMap",
            TypeMapping {
                codec_expr: "hashMap({0}, {1})".to_owned(),
                ts_type: "Map<{0}, {1}>".to_owned(),
                import: Option::Some(Import::new("rkyv-js/lib/std-hash-map", "hashMap")),
                generics: GenericShape::Pair,
            },
        );
        self.register(
            "HashSet",
            TypeMapping {
                codec_expr: "hashSet({0})".to_owned(),
                ts_type: "Set<{0}>".to_owned(),
                import: Option::Some(Import::new("rkyv-js/lib/std-hash-set", "hashSet")),
                generics: GenericShape::Single,
            },
        );
        self.register(
            "BTreeMap",
            TypeMapping {
                codec_expr: "btreeMap({0}, {1})".to_owned(),
                ts_type: "Map<{0}, {1}>".to_owned(),
                import: Option::Some(Import::new("rkyv-js/lib/std-btree-map", "btreeMap")),
                generics: GenericShape::Pair,
            },
        );
        self.register(
            "BTreeSet",
            TypeMapping {
                codec_expr: "btreeSet({0})".to_owned(),
                ts_type: "Set<{0}>".to_owned(),
                import: Option::Some(Import::new("rkyv-js/lib/std-btree-set", "btreeSet")),
                generics: GenericShape::Single,
            },
        );
        self.register(
            "IndexMap",
            TypeMapping {
                codec_expr: "indexMap({0}, {1})".to_owned(),
                ts_type: "Map<{0}, {1}>".to_owned(),
                import: Option::Some(Import::new("rkyv-js/lib/indexmap", "indexMap")),
                generics: GenericShape::Pair,
            },
        );
        self.register(
            "IndexSet",
            TypeMapping {
                codec_expr: "indexSet({0})".to_owned(),
                ts_type: "Set<{0}>".to_owned(),
                import: Option::Some(Import::new("rkyv-js/lib/indexmap", "indexSet")),
                generics: GenericShape::Single,
            },
        );
        self.register(
            "Arc",
            TypeMapping {
                codec_expr: "r.arc({0})".to_owned(),
                ts_type: "{0}".to_owned(),
                import: Option::None,
                generics: GenericShape::Single,
            },
        );
        self.register(
            "Rc",
            TypeMapping {
                codec_expr: "r.rc({0})".to_owned(),
                ts_type: "{0}".to_owned(),
                import: Option::None,
                generics: GenericShape::Single,
            },
        );
        self.register(
            "Weak",
            TypeMapping {
                codec_expr: "r.rcWeak({0})".to_owned(),
                ts_type: "{0} | null".to_owned(),
                import: Option::None,
                generics: GenericShape::Single,
            },
        );
        proof {
            assert(final(self)@ =~= old(self)@ + builtin_mappings());
        }
    }
}

} // verus!
