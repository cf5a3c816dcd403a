//! Extraction: turning declaration data into generator entries, through a
//! per-unit alias context built from the unit's import statements.

use vstd::prelude::*;

use crate::registry::{mapping_arity, reg_lookup, TypeMapping, TypeMappingV, TypeRegistry};
use crate::source::{RawArg, RawDecl, RawFields, RawItem, RawType, RawUseTree, RawVariant, SourceUnit};
use crate::strutil::str_eq;
use crate::types::{nm_view, ExternalTypeV, TypeDef, TypeDefV};

verus! {

// ------------------------------------------------------------------
// Paths
// ------------------------------------------------------------------

/// `name` qualified by `prefix`, joined with `::` when the prefix is
/// non-empty.
pub open spec fn join2(prefix: Seq<char>, name: Seq<char>) -> Seq<char> {
    if prefix.len() == 0 {
        name
    } else {
        prefix + "::"@ + name
    }
}

/// Exec counterpart of [`join2`].
fn join2_exec(prefix: &str, name: &str) -> (r: String)
    ensures
        r@ == join2(prefix@, name@),
{
    if prefix.unicode_len() == 0 {
        proof {
            assert(prefix@.len() == 0);
        }
        name.to_owned()
    } else {
        let mut out = prefix.to_owned();
        out.append("::");
        out.append(name);
        out
    }
}

/// The segments of a path joined with `::`.
pub open spec fn join_path(segs: Seq<String>) -> Seq<char>
    decreases segs.len(),
{
    if segs.len() == 0 {
        Seq::empty()
    } else if segs.len() == 1 {
        segs[0]@
    } else {
        join_path(segs.drop_last()) + "::"@ + segs.last()@
    }
}

/// Exec counterpart of [`join_path`].
pub fn join_path_exec(segs: &Vec<String>) -> (r: String)
    ensures
        r@ == join_path(segs@),
{
    let mut out = String::new();
    let n = segs.len();
    let mut i: usize = 0;
    proof {
        assert(segs@.take(0) =~= Seq::empty());
        assert(out@ =~= join_path(segs@.take(0)));
    }
    while i < n
        invariant
            i <= n,
            n == segs.len(),
            out@ == join_path(segs@.take(i as int)),
        decreases n - i,
    {
        if i > 0 {
            out.append("::");
        }
        out.append(segs[i].as_str());
        proof {
            assert(segs@.take(i + 1).drop_last() =~= segs@.take(i as int));
            assert(segs@.take(i + 1).last() == segs@[i as int]);
            if i == 0 {
                assert(segs@.take(1)[0] == segs@[0]);
                assert(join_path(segs@.take(1)) == segs@[0]@);
                assert(Seq::<char>::empty() + segs@[0]@ =~= segs@[0]@);
            }
        }
        i = i + 1;
    }
    proof {
        assert(segs@.take(n as int) =~= segs@);
    }
    out
}

/// Whether `s` holds a `::` separator.
pub open spec fn has_sep(s: Seq<char>) -> bool {
    exists|i: int| 0 <= i < s.len() - 1 && #[trigger] s[i] == ':' && s[i + 1] == ':'
}

/// The trailing segment of a `::`-separated path.
pub open spec fn last_path_seg(s: Seq<char>) -> Seq<char>
    decreases s.len(),
{
    if !has_sep(s) {
        s
    } else if s[0] == ':' && s[1] == ':' {
        last_path_seg(s.skip(2))
    } else {
        last_path_seg(s.skip(1))
    }
}

/// Exec counterpart of [`last_path_seg`].
pub fn last_path_seg_exec(s: &str) -> (r: String)
    ensures
        r@ == last_path_seg(s@),
{
    let len = s.unicode_len();
    let mut start: usize = 0;
    let mut i: usize = 0;
    proof {
        assert(s@.skip(0) =~= s@);
    }
    while len - i > 1
        invariant
            start <= i,
            i <= len,
            len == s@.len(),
            last_path_seg(s@) == last_path_seg(s@.skip(start as int)),
            forall|k: int| start <= k < i && k + 1 < len ==> !(#[trigger] s@[k] == ':' && s@[k + 1] == ':'),
        decreases len - i,
    {
        let c0 = s.get_char(i);
        let c1 = s.get_char(i + 1);
        if c0 == ':' && c1 == ':' {
            proof {
                lemma_lps_skips_to(s@, start as int, i as int);
                assert(s@.skip(i as int).skip(2) =~= s@.skip(i + 2));
            }
            start = i + 2;
            i = i + 2;
        } else {
            i = i + 1;
        }
    }
    proof {
        assert(!has_sep(s@.skip(start as int))) by {
            assert forall|k: int|
                0 <= k < s@.skip(start as int).len() - 1 implies !(#[trigger] s@.skip(
                start as int,
            )[k] == ':' && s@.skip(start as int)[k + 1] == ':') by {
                assert(s@.skip(start as int)[k] == s@[start + k]);
                assert(s@.skip(start as int)[k + 1] == s@[start + k + 1]);
            }
        }
        assert(last_path_seg(s@.skip(start as int)) == s@.skip(start as int));
        assert(s@.subrange(start as int, len as int) =~= s@.skip(start as int));
    }
    let r = s.substring_char(start, len);
    r.to_owned()
}

/// Stepping over a separator-free stretch up to a separator at `p` leaves
/// the trailing segment unchanged.
proof fn lemma_lps_skips_to(s: Seq<char>, start: int, p: int)
    requires
        0 <= start <= p,
        p + 1 < s.len(),
        s[p] == ':' && s[p + 1] == ':',
        forall|k: int| start <= k < p && k + 1 < s.len() ==> !(#[trigger] s[k] == ':' && s[k + 1] == ':'),
    ensures
        last_path_seg(s.skip(start)) == last_path_seg(s.skip(p).skip(2)),
    decreases p - start,
{
    let t = s.skip(start);
    assert(t[p - start] == s[p]);
    assert(t[p - start + 1] == s[p + 1]);
    assert(has_sep(t));
    if start == p {
        assert(t[0] == ':' && t[1] == ':');
        assert(last_path_seg(t) == last_path_seg(t.skip(2)));
        assert(t.skip(2) =~= s.skip(p).skip(2));
    } else {
        assert(t[0] == s[start]);
        assert(t[1] == s[start + 1]);
        assert(!(t[0] == ':' && t[1] == ':'));
        assert(last_path_seg(t) == last_path_seg(t.skip(1)));
        assert(t.skip(1) =~= s.skip(start + 1));
        lemma_lps_skips_to(s, start + 1, p);
    }
}

// ------------------------------------------------------------------
// The per-unit alias context
// ------------------------------------------------------------------

/// Last binding of local name `k` in an alias context: a later import of
/// the same local name shadows an earlier one.
pub open spec fn ctx_lookup(ctx: Seq<(Seq<char>, Seq<char>)>, k: Seq<char>) -> Option<Seq<char>>
    decreases ctx.len(),
{
    if ctx.len() == 0 {
        Option::None
    } else if ctx.last().0 == k {
        Option::Some(ctx.last().1)
    } else {
        ctx_lookup(ctx.drop_last(), k)
    }
}

/// What a local type name stands for: its imported canonical path, or the
/// name itself when no import binds it.
pub open spec fn resolve_path(ident: Seq<char>, ctx: Seq<(Seq<char>, Seq<char>)>) -> Seq<char> {
    match ctx_lookup(ctx, ident) {
        Option::Some(p) => p,
        Option::None => ident,
    }
}

/// A per-unit alias context: local name to canonical path, built from the
/// unit's import statements and type-alias declarations.
#[derive(Debug)]
pub struct AliasTable {
    pairs: Vec<(String, String)>,
}

impl View for AliasTable {
    type V = Seq<(Seq<char>, Seq<char>)>;

    closed spec fn view(&self) -> Seq<(Seq<char>, Seq<char>)> {
        nm_view(self.pairs@)
    }
}

impl AliasTable {
    /// An empty context.
    pub fn new() -> (r: AliasTable)
        ensures
            r@ == Seq::<(Seq<char>, Seq<char>)>::empty(),
    {
        AliasTable { pairs: Vec::new() }
    }

    /// Bind local name `local` to the canonical path `full`.
    pub fn push(&mut self, local: String, full: String)
        ensures
            final(self)@ == old(self)@.push((local@, full@)),
    {
        let ghost pre = self.pairs@;
        self.pairs.push((local, full));
        proof {
            assert(self.pairs@.drop_last() =~= pre);
        }
    }

    /// Resolve a local type name to its canonical path, or to itself.
    pub fn resolve(&self, ident: &str) -> (r: String)
        ensures
            r@ == resolve_path(ident@, self@),
    {
        let n = self.pairs.len();
        let mut i: usize = n;
        proof {
            crate::types::lemma_nm_view_props(self.pairs@);
            assert(self@.take(n as int) =~= self@);
        }
        while i > 0
            invariant
                i <= n,
                n == self.pairs.len(),
                self@.len() == n,
                forall|j: int|
                    0 <= j < n ==> self@[j] == (self.pairs@[j].0@, self.pairs@[j].1@),
                ctx_lookup(self@, ident@) == ctx_lookup(self@.take(i as int), ident@),
            decreases i,
        {
            i = i - 1;
            proof {
                assert(self@.take(i + 1).drop_last() =~= self@.take(i as int));
                assert(self@.take(i + 1).last() == self@[i as int]);
            }
            if str_eq(self.pairs[i].0.as_str(), ident) {
                return self.pairs[i].1.clone();
            }
        }
        proof {
            assert(self@.take(0) =~= Seq::<(Seq<char>, Seq<char>)>::empty());
        }
        ident.to_owned()
    }
}

/// The context bindings one import tree contributes, under `prefix`.
pub open spec fn ctx_of_tree(t: RawUseTree, prefix: Seq<char>) -> Seq<(Seq<char>, Seq<char>)>
    decreases t, 0nat,
{
    match t {
        RawUseTree::Seg(s, sub) => ctx_of_tree(*sub, join2(prefix, s@)),
        RawUseTree::Leaf(n) => seq![(n@, join2(prefix, n@))],
        RawUseTree::Rename(c, a) => seq![(a@, join2(prefix, c@))],
        RawUseTree::Glob => Seq::empty(),
        RawUseTree::Group(items) => ctx_of_trees(items@, prefix),
    }
}

/// The context bindings of a list of import subtrees, in order.
pub open spec fn ctx_of_trees(
    items: Seq<RawUseTree>,
    prefix: Seq<char>,
) -> Seq<(Seq<char>, Seq<char>)>
    decreases items, 1nat,
{
    if items.len() == 0 {
        Seq::empty()
    } else {
        ctx_of_trees(items.drop_last(), prefix) + ctx_of_tree(items.last(), prefix)
    }
}

/// The context bindings of a whole unit: every import statement's
/// bindings, plus one binding per type-alias declaration with a qualified
/// target.
pub open spec fn unit_ctx(items: Seq<RawItem>) -> Seq<(Seq<char>, Seq<char>)>
    decreases items.len(),
{
    if items.len() == 0 {
        Seq::empty()
    } else {
        unit_ctx(items.drop_last()) + (match items.last() {
            RawItem::UseDecl(tree) => ctx_of_tree(tree, Seq::empty()),
            RawItem::TypeAlias { name, target } => if target@.len() > 1 {
                seq![(name@, join_path(target@))]
            } else {
                Seq::empty()
            },
            _ => Seq::empty(),
        })
    }
}

/// Append the bindings of one import tree to `ctx`.
fn add_tree(t: &RawUseTree, prefix: &str, ctx: &mut AliasTable)
    ensures
        final(ctx)@ == old(ctx)@ + ctx_of_tree(*t, prefix@),
    decreases t, 0nat,
{
    let ghost base = old(ctx)@;
    match t {
        RawUseTree::Seg(s, sub) => {
            let p2 = join2_exec(prefix, s.as_str());
            add_tree(&**sub, p2.as_str(), ctx);
        },
        RawUseTree::Leaf(n) => {
            let full = join2_exec(prefix, n.as_str());
            ctx.push(n.clone(), full);
            proof {
                assert(ctx@ =~= base + ctx_of_tree(*t, prefix@));
            }
        },
        RawUseTree::Rename(c, a) => {
            let full = join2_exec(prefix, c.as_str());
            ctx.push(a.clone(), full);
            proof {
                assert(ctx@ =~= base + ctx_of_tree(*t, prefix@));
            }
        },
        RawUseTree::Glob => {
            proof {
                assert(base + ctx_of_tree(*t, prefix@) =~= base);
            }
        },
        RawUseTree::Group(items) => {
            add_trees(items, prefix, ctx);
        },
    }
}

/// Append the bindings of a list of import subtrees to `ctx`.
fn add_trees(items: &Vec<RawUseTree>, prefix: &str, ctx: &mut AliasTable)
    ensures
        final(ctx)@ == old(ctx)@ + ctx_of_trees(items@, prefix@),
    decreases items, 1nat,
{
    let ghost base = old(ctx)@;
    let n = items.len();
    let mut i: usize = 0;
    proof {
        assert(items@.take(0) =~= Seq::empty());
        assert(base + ctx_of_trees(items@.take(0), prefix@) =~= base);
    }
    while i < n
        invariant
            i <= n,
            n == items.len(),
            ctx@ == base + ctx_of_trees(items@.take(i as int), prefix@),
        decreases n - i,
    {
        add_tree(&items[i], prefix, ctx);
        proof {
            assert(items@.take(i + 1).drop_last() =~= items@.take(i as int));
            assert(items@.take(i + 1).last() == items@[i as int]);
        }
        i = i + 1;
    }
    proof {
        assert(items@.take(n as int) =~= items@);
    }
}

/// Build the alias context of a whole unit.
pub fn build_ctx(unit: &SourceUnit) -> (r: AliasTable)
    ensures
        r@ == unit_ctx(unit.items@),
{
    let mut ctx = AliasTable::new();
    let n = unit.items.len();
    let mut i: usize = 0;
    proof {
        assert(unit.items@.take(0) =~= Seq::empty());
        assert(ctx@ =~= unit_ctx(unit.items@.take(0)));
    }
    while i < n
        invariant
            i <= n,
            n == unit.items.len(),
            ctx@ == unit_ctx(unit.items@.take(i as int)),
        decreases n - i,
    {
        let ghost pre = ctx@;
        match &unit.items[i] {
            RawItem::UseDecl(tree) => {
                add_tree(tree, "", &mut ctx);
                proof {
                    reveal_strlit("");
                    assert(""@ =~= Seq::<char>::empty());
                }
            },
            RawItem::TypeAlias { name, target } => {
                if target.len() > 1 {
                    let full = join_path_exec(target);
                    ctx.push(name.clone(), full);
                    proof {
                        assert(ctx@ =~= pre + seq![(name@, join_path(target@))]);
                    }
                } else {
                    proof {
                        assert(pre + Seq::<(Seq<char>, Seq<char>)>::empty() =~= pre);
                    }
                }
            },
            _ => {
                proof {
                    assert(pre + Seq::<(Seq<char>, Seq<char>)>::empty() =~= pre);
                }
            },
        }
        proof {
            assert(unit.items@.take(i + 1).drop_last() =~= unit.items@.take(i as int));
            assert(unit.items@.take(i + 1).last() == unit.items@[i as int]);
        }
        i = i + 1;
    }
    proof {
        assert(unit.items@.take(n as int) =~= unit.items@);
    }
    ctx
}


// ------------------------------------------------------------------
// Mapping syntactic types to the type model
// ------------------------------------------------------------------

/// The type a declaration's field maps to, or `None` when the shape is not
/// handled: primitives and containers map directly; a registered external
/// name is stamped from its template, its generic arguments sliced to the
/// template's arity; any other name becomes a named reference to a
/// same-session entry.
pub open spec fn spec_td(
    rt: RawType,
    reg: Seq<(Seq<char>, TypeMappingV)>,
    ctx: Seq<(Seq<char>, Seq<char>)>,
) -> Option<TypeDefV>
    decreases rt, 4nat,
{
    match rt {
        RawType::Path { segments, args } => {
            if segments@.len() == 0 {
                Option::None
            } else {
                let full = if segments@.len() > 1 {
                    join_path(segments@)
                } else {
                    resolve_path(segments@[0]@, ctx)
                };
                if full == "u8"@ {
                    Option::Some(TypeDefV::U8)
                } else if full == "i8"@ {
                    Option::Some(TypeDefV::I8)
                } else if full == "u16"@ {
                    Option::Some(TypeDefV::U16)
                } else if full == "i16"@ {
                    Option::Some(TypeDefV::I16)
                } else if full == "u32"@ {
                    Option::Some(TypeDefV::U32)
                } else if full == "i32"@ {
                    Option::Some(TypeDefV::I32)
                } else if full == "u64"@ {
                    Option::Some(TypeDefV::U64)
                } else if full == "i64"@ {
                    Option::Some(TypeDefV::I64)
                } else if full == "f32"@ {
                    Option::Some(TypeDefV::F32)
                } else if full == "f64"@ {
                    Option::Some(TypeDefV::F64)
                } else if full == "bool"@ {
                    Option::Some(TypeDefV::Bool)
                } else if full == "char"@ {
                    Option::Some(TypeDefV::Char)
                } else if full == "String"@ || full == "std::string::String"@ {
                    Option::Some(TypeDefV::Text)
                } else if full == "Vec"@ || full == "std::vec::Vec"@ {
                    match spec_td_single_arg(args@, reg, ctx) {
                        Option::Some(t) => Option::Some(TypeDefV::List(Box::new(t))),
                        Option::None => Option::None,
                    }
                } else if full == "Option"@ || full == "std::option::Option"@ {
                    match spec_td_single_arg(args@, reg, ctx) {
                        Option::Some(t) => Option::Some(TypeDefV::Optional(Box::new(t))),
                        Option::None => Option::None,
                    }
                } else if full == "Box"@ || full == "std::boxed::Box"@ {
                    match spec_td_single_arg(args@, reg, ctx) {
                        Option::Some(t) => Option::Some(TypeDefV::Boxed(Box::new(t))),
                        Option::None => Option::None,
                    }
                } else {
                    let found = match reg_lookup(reg, full) {
                        Option::Some(m) => Option::Some(m),
                        Option::None => reg_lookup(reg, last_path_seg(full)),
                    };
                    match found {
                        Option::Some(m) => match spec_td_args(
                            args@,
                            0,
                            mapping_arity(m),
                            reg,
                            ctx,
                        ) {
                            Option::Some(ps) => Option::Some(
                                TypeDefV::External(
                                    ExternalTypeV {
                                        codec_expr: m.codec_expr,
                                        ts_type: m.ts_type,
                                        import: m.import,
                                        type_params: ps,
                                    },
                                ),
                            ),
                            Option::None => Option::None,
                        },
                        Option::None => Option::Some(TypeDefV::Named(segments@.last()@)),
                    }
                }
            }
        },
        RawType::Array { elem, len } => match len {
            Option::Some(l) => match spec_td(*elem, reg, ctx) {
                Option::Some(t) => Option::Some(TypeDefV::Array(Box::new(t), l as nat)),
                Option::None => Option::None,
            },
            Option::None => Option::None,
        },
        RawType::Tuple(elems) => {
            if elems@.len() == 0 {
                Option::Some(TypeDefV::Unit)
            } else {
                match spec_td_seq(elems@, 0, reg, ctx) {
                    Option::Some(ts) => Option::Some(TypeDefV::Tuple(ts)),
                    Option::None => Option::None,
                }
            }
        },
        RawType::Ref(inner) => {
            if is_str_path(*inner) {
                Option::Some(TypeDefV::Text)
            } else {
                spec_td(*inner, reg, ctx)
            }
        },
        RawType::Unsupported => Option::None,
    }
}

/// Whether a syntactic type is the bare `str` primitive.
pub open spec fn is_str_path(rt: RawType) -> bool {
    match rt {
        RawType::Path { segments, args } => segments@.len() == 1 && segments@[0]@ == "str"@
            && args@.len() == 0,
        _ => false,
    }
}

/// The mapped first generic argument, demanded to be a type argument.
pub open spec fn spec_td_single_arg(
    args: Seq<RawArg>,
    reg: Seq<(Seq<char>, TypeMappingV)>,
    ctx: Seq<(Seq<char>, Seq<char>)>,
) -> Option<TypeDefV>
    decreases args, 5nat,
{
    if args.len() == 0 {
        Option::None
    } else {
        match args[0] {
            RawArg::Ty(t) => spec_td(t, reg, ctx),
            RawArg::Other => Option::None,
        }
    }
}

/// The mapped type arguments from position `i` on, at most `remaining` of
/// them: non-type arguments are skipped, an array-typed argument stands
/// for its element, and arguments beyond the arity are silently discarded.
/// One argument that fails to map fails the whole list.
pub open spec fn spec_td_args(
    args: Seq<RawArg>,
    i: int,
    remaining: nat,
    reg: Seq<(Seq<char>, TypeMappingV)>,
    ctx: Seq<(Seq<char>, Seq<char>)>,
) -> Option<Seq<TypeDefV>>
    decreases args, 5nat, args.len() - i,
{
    if i < 0 || i >= args.len() || remaining == 0 {
        Option::Some(Seq::empty())
    } else {
        match args[i] {
            RawArg::Other => spec_td_args(args, i + 1, remaining, reg, ctx),
            RawArg::Ty(t) => {
                match spec_td_unwrap(t, reg, ctx) {
                    Option::Some(td) => match spec_td_args(
                        args,
                        i + 1,
                        (remaining - 1) as nat,
                        reg,
                        ctx,
                    ) {
                        Option::Some(rest) => Option::Some(seq![td] + rest),
                        Option::None => Option::None,
                    },
                    Option::None => Option::None,
                }
            },
        }
    }
}

/// The mapped type of one generic argument, an array-typed argument
/// standing for its element.
pub open spec fn spec_td_unwrap(
    t: RawType,
    reg: Seq<(Seq<char>, TypeMappingV)>,
    ctx: Seq<(Seq<char>, Seq<char>)>,
) -> Option<TypeDefV>
    decreases t, 5nat,
{
    match t {
        RawType::Array { elem, len } => spec_td(*elem, reg, ctx),
        _ => spec_td(t, reg, ctx),
    }
}

/// The mapped types of the elements from position `i` on; one failure
/// fails the list.
pub open spec fn spec_td_seq(
    elems: Seq<RawType>,
    i: int,
    reg: Seq<(Seq<char>, TypeMappingV)>,
    ctx: Seq<(Seq<char>, Seq<char>)>,
) -> Option<Seq<TypeDefV>>
    decreases elems, 5nat, elems.len() - i,
{
    if i < 0 || i >= elems.len() {
        Option::Some(Seq::empty())
    } else {
        match spec_td(elems[i], reg, ctx) {
            Option::Some(td) => match spec_td_seq(elems, i + 1, reg, ctx) {
                Option::Some(rest) => Option::Some(seq![td] + rest),
                Option::None => Option::None,
            },
            Option::None => Option::None,
        }
    }
}


/// Whether `rt` is the bare `str` primitive.
fn is_str_exec(rt: &RawType) -> (r: bool)
    ensures
        r == is_str_path(*rt),
{
    match rt {
        RawType::Path { segments, args } => segments.len() == 1 && str_eq(
            segments[0].as_str(),
            "str",
        ) && args.len() == 0,
        _ => false,
    }
}

/// Exec counterpart of [`spec_td`].
pub fn td_of(rt: &RawType, reg: &TypeRegistry, ctx: &AliasTable) -> (r: Option<TypeDef>)
    ensures
        match r {
            Option::Some(t) => spec_td(*rt, reg@, ctx@) == Option::Some(t@),
            Option::None => spec_td(*rt, reg@, ctx@) is None,
        },
    decreases rt, 4nat,
{
    match rt {
        RawType::Path { segments, args } => {
            if segments.len() == 0 {
                return Option::None;
            }
            let full: String = if segments.len() > 1 {
                join_path_exec(segments)
            } else {
                ctx.resolve(segments[0].as_str())
            };
            let f = full.as_str();
            if str_eq(f, "u8") {
                Option::Some(TypeDef::U8)
            } else if str_eq(f, "i8") {
                Option::Some(TypeDef::I8)
            } else if str_eq(f, "u16") {
                Option::Some(TypeDef::U16)
            } else if str_eq(f, "i16") {
                Option::Some(TypeDef::I16)
            } else if str_eq(f, "u32") {
                Option::Some(TypeDef::U32)
            } else if str_eq(f, "i32") {
                Option::Some(TypeDef::I32)
            } else if str_eq(f, "u64") {
                Option::Some(TypeDef::U64)
            } else if str_eq(f, "i64") {
                Option::Some(TypeDef::I64)
            } else if str_eq(f, "f32") {
                Option::Some(TypeDef::F32)
            } else if str_eq(f, "f64") {
                Option::Some(TypeDef::F64)
            } else if str_eq(f, "bool") {
                Option::Some(TypeDef::Bool)
            } else if str_eq(f, "char") {
                Option::Some(TypeDef::Char)
            } else if str_eq(f, "String") || str_eq(f, "std::string::String") {
                Option::Some(TypeDef::Text)
            } else if str_eq(f, "Vec") || str_eq(f, "std::vec::Vec") {
                match td_single_arg(args, reg, ctx) {
                    Option::Some(t) => Option::Some(TypeDef::List(Box::new(t))),
                    Option::None => Option::None,
                }
            } else if str_eq(f, "Option") || str_eq(f, "std::option::Option") {
                match td_single_arg(args, reg, ctx) {
                    Option::Some(t) => Option::Some(TypeDef::Optional(Box::new(t))),
                    Option::None => Option::None,
                }
            } else if str_eq(f, "Box") || str_eq(f, "std::boxed::Box") {
                match td_single_arg(args, reg, ctx) {
                    Option::Some(t) => Option::Some(TypeDef::Boxed(Box::new(t))),
                    Option::None => Option::None,
                }
            } else {
                let direct = reg.get(f);
                match direct {
                    Option::Some(m) => td_external(m, args, reg, ctx),
                    Option::None => {
                        let short = last_path_seg_exec(f);
                        match reg.get(short.as_str()) {
                            Option::Some(m) => td_external(m, args, reg, ctx),
                            Option::None => {
                                let last = segments[segments.len() - 1].clone();
                                Option::Some(TypeDef::Named(last))
                            },
                        }
                    },
                }
            }
        },
        RawType::Array { elem, len } => {
            match len {
                Option::Some(l) => {
                    match td_of(&**elem, reg, ctx) {
                        Option::Some(t) => Option::Some(TypeDef::Array(Box::new(t), *l)),
                        Option::None => Option::None,
                    }
                },
                Option::None => Option::None,
            }
        },
        RawType::Tuple(elems) => {
            if elems.len() == 0 {
                Option::Some(TypeDef::Unit)
            } else {
                match td_seq(elems, reg, ctx) {
                    Option::Some(ts) => Option::Some(TypeDef::Tuple(ts)),
                    Option::None => Option::None,
                }
            }
        },
        RawType::Ref(inner) => {
            if is_str_exec(&**inner) {
                Option::Some(TypeDef::Text)
            } else {
                td_of(&**inner, reg, ctx)
            }
        },
        RawType::Unsupported => Option::None,
    }
}

/// Stamp a registered mapping with the arguments a matched declaration
/// supplies.
fn td_external(
    m: &TypeMapping,
    args: &Vec<RawArg>,
    reg: &TypeRegistry,
    ctx: &AliasTable,
) -> (r: Option<TypeDef>)
    ensures
        match r {
            Option::Some(t) => (match spec_td_args(args@, 0, mapping_arity(m@), reg@, ctx@) {
                Option::Some(ps) => t@ == TypeDefV::External(
                    ExternalTypeV {
                        codec_expr: m@.codec_expr,
                        ts_type: m@.ts_type,
                        import: m@.import,
                        type_params: ps,
                    },
                ),
                Option::None => false,
            }),
            Option::None => spec_td_args(args@, 0, mapping_arity(m@), reg@, ctx@) is None,
        },
    decreases args, 8nat,
{
    let arity = m.arity();
    match td_args(args, arity, reg, ctx) {
        Option::Some(params) => Option::Some(m.to_type_def(params)),
        Option::None => Option::None,
    }
}

/// Exec counterpart of [`spec_td_args`], from position 0.
fn td_args(args: &Vec<RawArg>, remaining: usize, reg: &TypeRegistry, ctx: &AliasTable) -> (r:
    Option<Vec<TypeDef>>)
    ensures
        match r {
            Option::Some(v) => spec_td_args(args@, 0, remaining as nat, reg@, ctx@)
                == Option::Some(crate::types::tds_view(v@)),
            Option::None => spec_td_args(args@, 0, remaining as nat, reg@, ctx@) is None,
        },
    decreases args, 7nat,
{
    let n = args.len();
    let mut out: Vec<TypeDef> = Vec::new();
    let mut i: usize = 0;
    let mut rem: usize = remaining;
    proof {
        assert(crate::types::tds_view(out@) =~= Seq::<TypeDefV>::empty());
        assert(Seq::<TypeDefV>::empty() + spec_td_args(
            args@,
            0,
            remaining as nat,
            reg@,
            ctx@,
        )->0 =~= spec_td_args(args@, 0, remaining as nat, reg@, ctx@)->0);
    }
    while i < n && rem > 0
        invariant
            i <= n,
            rem <= remaining,
            n == args.len(),
            (match spec_td_args(args@, 0, remaining as nat, reg@, ctx@) {
                Option::Some(full) => spec_td_args(args@, i as int, rem as nat, reg@, ctx@)
                    is Some && full == crate::types::tds_view(out@) + spec_td_args(
                    args@,
                    i as int,
                    rem as nat,
                    reg@,
                    ctx@,
                )->0,
                Option::None => spec_td_args(args@, i as int, rem as nat, reg@, ctx@) is None,
            }),
        decreases n - i,
    {
        let a = &args[i];
        match a {
            RawArg::Other => {
                i = i + 1;
            },
            RawArg::Ty(_) => {
                match td_unwrap_arg(a, reg, ctx) {
                    Option::Some(td) => {
                        let ghost pre = out@;
                        out.push(td);
                        proof {
                            assert(out@.drop_last() =~= pre);
                            crate::types::lemma_tds_view_props(out@);
                            crate::types::lemma_tds_view_props(pre);
                            assert(crate::types::tds_view(out@) =~= crate::types::tds_view(
                                pre,
                            ).push(out@.last()@));
                            assert(crate::types::tds_view(pre) + (seq![out@.last()@]
                                + spec_td_args(args@, i + 1, (rem - 1) as nat, reg@, ctx@)->0)
                                =~= crate::types::tds_view(out@) + spec_td_args(
                                args@,
                                i + 1,
                                (rem - 1) as nat,
                                reg@,
                                ctx@,
                            )->0);
                        }
                        i = i + 1;
                        rem = rem - 1;
                    },
                    Option::None => {
                        return Option::None;
                    },
                }
            },
        }
    }
    proof {
        assert(spec_td_args(args@, i as int, rem as nat, reg@, ctx@) == Option::Some(Seq::<
            TypeDefV,
        >::empty()));
        assert(crate::types::tds_view(out@) + Seq::<TypeDefV>::empty() =~= crate::types::tds_view(
            out@,
        ));
    }
    Option::Some(out)
}

/// Map one type argument, an array-typed argument standing for its
/// element; a non-type argument maps to nothing.
fn td_unwrap_arg(a: &RawArg, reg: &TypeRegistry, ctx: &AliasTable) -> (r: Option<TypeDef>)
    ensures
        match a {
            RawArg::Ty(t) => (match r {
                Option::Some(td) => spec_td_unwrap(*t, reg@, ctx@) == Option::Some(td@),
                Option::None => spec_td_unwrap(*t, reg@, ctx@) is None,
            }),
            RawArg::Other => r is None,
        },
    decreases a, 6nat,
{
    match a {
        RawArg::Ty(t) => {
            match t {
                RawType::Array { elem, len } => td_of(&**elem, reg, ctx),
                _ => td_of(t, reg, ctx),
            }
        },
        RawArg::Other => Option::None,
    }
}

/// Map the first generic argument, demanded to be a type argument.
fn td_single_arg(args: &Vec<RawArg>, reg: &TypeRegistry, ctx: &AliasTable) -> (r: Option<
    TypeDef,
>)
    ensures
        match r {
            Option::Some(t) => spec_td_single_arg(args@, reg@, ctx@) == Option::Some(t@),
            Option::None => spec_td_single_arg(args@, reg@, ctx@) is None,
        },
    decreases args, 6nat,
{
    if args.len() == 0 {
        return Option::None;
    }
    td_first_arg(&args[0], reg, ctx)
}

/// Map one argument directly, without array unwrapping.
fn td_first_arg(a: &RawArg, reg: &TypeRegistry, ctx: &AliasTable) -> (r: Option<TypeDef>)
    ensures
        match a {
            RawArg::Ty(t) => (match r {
                Option::Some(td) => spec_td(*t, reg@, ctx@) == Option::Some(td@),
                Option::None => spec_td(*t, reg@, ctx@) is None,
            }),
            RawArg::Other => r is None,
        },
    decreases a, 5nat,
{
    match a {
        RawArg::Ty(t) => td_of(t, reg, ctx),
        RawArg::Other => Option::None,
    }
}

/// Exec counterpart of [`spec_td_seq`], from position 0.
fn td_seq(elems: &Vec<RawType>, reg: &TypeRegistry, ctx: &AliasTable) -> (r: Option<Vec<
    TypeDef,
>>)
    ensures
        match r {
            Option::Some(v) => spec_td_seq(elems@, 0, reg@, ctx@) == Option::Some(
                crate::types::tds_view(v@),
            ),
            Option::None => spec_td_seq(elems@, 0, reg@, ctx@) is None,
        },
    decreases elems, 5nat,
{
    let n = elems.len();
    let mut out: Vec<TypeDef> = Vec::new();
    let mut i: usize = 0;
    proof {
        assert(crate::types::tds_view(out@) =~= Seq::<TypeDefV>::empty());
        assert(Seq::<TypeDefV>::empty() + spec_td_seq(elems@, 0, reg@, ctx@)->0 =~= spec_td_seq(
            elems@,
            0,
            reg@,
            ctx@,
        )->0);
    }
    while i < n
        invariant
            i <= n,
            n == elems.len(),
            (match spec_td_seq(elems@, 0, reg@, ctx@) {
                Option::Some(full) => spec_td_seq(elems@, i as int, reg@, ctx@) is Some && full
                    == crate::types::tds_view(out@) + spec_td_seq(
                    elems@,
                    i as int,
                    reg@,
                    ctx@,
                )->0,
                Option::None => spec_td_seq(elems@, i as int, reg@, ctx@) is None,
            }),
        decreases n - i,
    {
        match td_of(&elems[i], reg, ctx) {
            Option::Some(td) => {
                let ghost pre = out@;
                out.push(td);
                proof {
                    assert(out@.drop_last() =~= pre);
                    crate::types::lemma_tds_view_props(out@);
                    crate::types::lemma_tds_view_props(pre);
                    assert(crate::types::tds_view(out@) =~= crate::types::tds_view(pre).push(
                        out@.last()@,
                    ));
                    assert(crate::types::tds_view(pre) + (seq![out@.last()@] + spec_td_seq(
                        elems@,
                        i + 1,
                        reg@,
                        ctx@,
                    )->0) =~= crate::types::tds_view(out@) + spec_td_seq(
                        elems@,
                        i + 1,
                        reg@,
                        ctx@,
                    )->0);
                }
                i = i + 1;
            },
            Option::None => {
                return Option::None;
            },
        }
    }
    proof {
        assert(spec_td_seq(elems@, i as int, reg@, ctx@) == Option::Some(Seq::<
            TypeDefV,
        >::empty()));
        assert(crate::types::tds_view(out@) + Seq::<TypeDefV>::empty() =~= crate::types::tds_view(
            out@,
        ));
    }
    Option::Some(out)
}


// ------------------------------------------------------------------
// Marker detection
// ------------------------------------------------------------------

/// Whether one derive path selects the declaration for marker `m`: an
/// unqualified name is resolved through the alias context and must equal
/// the marker exactly; a qualified path matches the marker itself or by
/// trailing-segment equality.
pub open spec fn derive_matches(
    d: Seq<String>,
    ctx: Seq<(Seq<char>, Seq<char>)>,
    m: Seq<char>,
) -> bool {
    if d.len() == 0 {
        false
    } else if d.len() == 1 {
        resolve_path(d[0]@, ctx) == m
    } else {
        join_path(d) == m || d.last()@ == last_path_seg(m)
    }
}

/// Whether a declaration's derive list names any of the markers.
pub open spec fn decl_selected(
    derives: Seq<Vec<String>>,
    ctx: Seq<(Seq<char>, Seq<char>)>,
    markers: Seq<Seq<char>>,
) -> bool {
    exists|j: int, k: int|
        0 <= j < derives.len() && 0 <= k < markers.len() && derive_matches(
            #[trigger] derives[j]@,
            ctx,
            #[trigger] markers[k],
        )
}

/// Exec counterpart of [`derive_matches`].
fn derive_matches_exec(d: &Vec<String>, ctx: &AliasTable, m: &str) -> (r: bool)
    ensures
        r == derive_matches(d@, ctx@, m@),
{
    if d.len() == 0 {
        false
    } else if d.len() == 1 {
        let resolved = ctx.resolve(d[0].as_str());
        str_eq(resolved.as_str(), m)
    } else {
        let joined = join_path_exec(d);
        if str_eq(joined.as_str(), m) {
            true
        } else {
            let tail_m = last_path_seg_exec(m);
            str_eq(d[d.len() - 1].as_str(), tail_m.as_str())
        }
    }
}

/// Exec counterpart of [`decl_selected`].
fn decl_selected_exec(derives: &Vec<Vec<String>>, ctx: &AliasTable, markers: &Vec<String>) -> (r:
    bool)
    ensures
        r == decl_selected(derives@, ctx@, crate::strutil::strs_view(markers@)),
{
    let ghost mv = crate::strutil::strs_view(markers@);
    proof {
        crate::strutil::lemma_strs_view_props(markers@);
    }
    let dn = derives.len();
    let mn = markers.len();
    let mut j: usize = 0;
    while j < dn
        invariant
            j <= dn,
            dn == derives.len(),
            mn == markers.len(),
            mv == crate::strutil::strs_view(markers@),
            mv.len() == mn,
            forall|t: int| 0 <= t < mn ==> mv[t] == markers@[t]@,
            forall|jj: int, kk: int|
                0 <= jj < j && 0 <= kk < mn ==> !derive_matches(
                    #[trigger] derives@[jj]@,
                    ctx@,
                    #[trigger] mv[kk],
                ),
        decreases dn - j,
    {
        let mut k: usize = 0;
        while k < mn
            invariant
                k <= mn,
                j < dn,
                dn == derives.len(),
                mn == markers.len(),
                mv == crate::strutil::strs_view(markers@),
                mv.len() == mn,
                forall|t: int| 0 <= t < mn ==> mv[t] == markers@[t]@,
                forall|kk: int|
                    0 <= kk < k ==> !derive_matches(derives@[j as int]@, ctx@, #[trigger] mv[kk]),
            decreases mn - k,
        {
            if derive_matches_exec(&derives[j], ctx, markers[k].as_str()) {
                proof {
                    assert(derive_matches(derives@[j as int]@, ctx@, mv[k as int]));
                }
                return true;
            }
            k = k + 1;
        }
        j = j + 1;
    }
    false
}

// ------------------------------------------------------------------
// Declarations to entries
// ------------------------------------------------------------------

/// The named-field list a declaration's fields map to; one field that
/// fails to map fails the whole declaration.
pub open spec fn spec_named_fields(
    fs: Seq<(String, RawType)>,
    reg: Seq<(Seq<char>, TypeMappingV)>,
    ctx: Seq<(Seq<char>, Seq<char>)>,
) -> Option<Seq<(Seq<char>, TypeDefV)>>
    decreases fs.len(),
{
    if fs.len() == 0 {
        Option::Some(Seq::empty())
    } else {
        match spec_named_fields(fs.drop_last(), reg, ctx) {
            Option::Some(pre) => match spec_td(fs.last().1, reg, ctx) {
                Option::Some(t) => Option::Some(pre.push((fs.last().0@, t))),
                Option::None => Option::None,
            },
            Option::None => Option::None,
        }
    }
}

/// The positional-field list: fields named `_0`, `_1`, ... in order.
pub open spec fn spec_pos_fields(
    ts: Seq<RawType>,
    reg: Seq<(Seq<char>, TypeMappingV)>,
    ctx: Seq<(Seq<char>, Seq<char>)>,
) -> Option<Seq<(Seq<char>, TypeDefV)>>
    decreases ts.len(),
{
    if ts.len() == 0 {
        Option::Some(Seq::empty())
    } else {
        match spec_pos_fields(ts.drop_last(), reg, ctx) {
            Option::Some(pre) => match spec_td(ts.last(), reg, ctx) {
                Option::Some(t) => Option::Some(
                    pre.push((seq!['_'] + crate::strutil::dec_str((ts.len() - 1) as nat), t)),
                ),
                Option::None => Option::None,
            },
            Option::None => Option::None,
        }
    }
}

/// The field list of a struct declaration.
pub open spec fn spec_struct_fields(
    f: RawFields,
    reg: Seq<(Seq<char>, TypeMappingV)>,
    ctx: Seq<(Seq<char>, Seq<char>)>,
) -> Option<Seq<(Seq<char>, TypeDefV)>> {
    match f {
        RawFields::Named(fs) => spec_named_fields(fs@, reg, ctx),
        RawFields::Unnamed(ts) => spec_pos_fields(ts@, reg, ctx),
        RawFields::Unit => Option::Some(Seq::empty()),
    }
}

/// The plain type list of a tuple variant.
pub open spec fn spec_plain_tds(
    ts: Seq<RawType>,
    reg: Seq<(Seq<char>, TypeMappingV)>,
    ctx: Seq<(Seq<char>, Seq<char>)>,
) -> Option<Seq<TypeDefV>>
    decreases ts.len(),
{
    if ts.len() == 0 {
        Option::Some(Seq::empty())
    } else {
        match spec_plain_tds(ts.drop_last(), reg, ctx) {
            Option::Some(pre) => match spec_td(ts.last(), reg, ctx) {
                Option::Some(t) => Option::Some(pre.push(t)),
                Option::None => Option::None,
            },
            Option::None => Option::None,
        }
    }
}

/// The enum variant a declaration variant maps to.
pub open spec fn spec_variant(
    v: RawVariant,
    reg: Seq<(Seq<char>, TypeMappingV)>,
    ctx: Seq<(Seq<char>, Seq<char>)>,
) -> Option<crate::types::EnumVariantV> {
    match v.fields {
        RawFields::Unit => Option::Some(crate::types::EnumVariantV::Unit(v.name@)),
        RawFields::Unnamed(ts) => match spec_plain_tds(ts@, reg, ctx) {
            Option::Some(tds) => Option::Some(crate::types::EnumVariantV::Tuple(v.name@, tds)),
            Option::None => Option::None,
        },
        RawFields::Named(fs) => match spec_named_fields(fs@, reg, ctx) {
            Option::Some(flds) => Option::Some(
                crate::types::EnumVariantV::Struct(v.name@, flds),
            ),
            Option::None => Option::None,
        },
    }
}

/// The variant list of an enum declaration.
pub open spec fn spec_variants(
    vs: Seq<RawVariant>,
    reg: Seq<(Seq<char>, TypeMappingV)>,
    ctx: Seq<(Seq<char>, Seq<char>)>,
) -> Option<Seq<crate::types::EnumVariantV>>
    decreases vs.len(),
{
    if vs.len() == 0 {
        Option::Some(Seq::empty())
    } else {
        match spec_variants(vs.drop_last(), reg, ctx) {
            Option::Some(pre) => match spec_variant(vs.last(), reg, ctx) {
                Option::Some(v) => Option::Some(pre.push(v)),
                Option::None => Option::None,
            },
            Option::None => Option::None,
        }
    }
}

/// The view of a declaration's optional custom output name.
pub open spec fn opt_name_view(o: Option<String>) -> Option<Seq<char>> {
    match o {
        Option::Some(a) => Option::Some(a@),
        Option::None => Option::None,
    }
}

/// The entry a selected declaration becomes, or `None` when a field or
/// variant type fails to map (the declaration is then dropped).
pub open spec fn decl_entry(
    d: RawDecl,
    reg: Seq<(Seq<char>, TypeMappingV)>,
    ctx: Seq<(Seq<char>, Seq<char>)>,
) -> Option<crate::generator::TypeEntryV> {
    if d.is_enum {
        match spec_variants(d.variants@, reg, ctx) {
            Option::Some(vs) => Option::Some(
                crate::generator::TypeEntryV {
                    name: d.name@,
                    archived_name: opt_name_view(d.archived),
                    kind: crate::generator::TypeKindV::Enum(vs),
                },
            ),
            Option::None => Option::None,
        }
    } else {
        match spec_struct_fields(d.fields, reg, ctx) {
            Option::Some(fs) => Option::Some(
                crate::generator::TypeEntryV {
                    name: d.name@,
                    archived_name: opt_name_view(d.archived),
                    kind: crate::generator::TypeKindV::Struct(fs),
                },
            ),
            Option::None => Option::None,
        }
    }
}

/// Exec counterpart of [`spec_named_fields`] / [`spec_pos_fields`] /
/// the unit case: the field list of a struct declaration.
pub fn struct_fields_of(f: &RawFields, reg: &TypeRegistry, ctx: &AliasTable) -> (r: Option<Vec<
    (String, TypeDef),
>>)
    ensures
        match r {
            Option::Some(v) => spec_struct_fields(*f, reg@, ctx@) == Option::Some(
                crate::types::fields_view(v@),
            ),
            Option::None => spec_struct_fields(*f, reg@, ctx@) is None,
        },
{
    match f {
        RawFields::Unit => {
            let out: Vec<(String, TypeDef)> = Vec::new();
            proof {
                assert(crate::types::fields_view(out@) =~= Seq::<(Seq<char>, TypeDefV)>::empty());
            }
            Option::Some(out)
        },
        RawFields::Named(fs) => {
            let n = fs.len();
            let mut out: Vec<(String, TypeDef)> = Vec::new();
            let mut i: usize = 0;
            proof {
                assert(fs@.take(0) =~= Seq::empty());
                assert(crate::types::fields_view(out@) =~= Seq::<(Seq<char>, TypeDefV)>::empty());
            }
            while i < n
                invariant
                    i <= n,
                    n == fs.len(),
                    spec_struct_fields(*f, reg@, ctx@) == spec_named_fields(fs@, reg@, ctx@),
                    spec_named_fields(fs@.take(i as int), reg@, ctx@) == Option::Some(
                        crate::types::fields_view(out@),
                    ),
                decreases n - i,
            {
                match td_of(&fs[i].1, reg, ctx) {
                    Option::Some(t) => {
                        let ghost pre = out@;
                        out.push((fs[i].0.clone(), t));
                        proof {
                            assert(out@.drop_last() =~= pre);
                            assert(fs@.take(i + 1).drop_last() =~= fs@.take(i as int));
                            assert(fs@.take(i + 1).last() == fs@[i as int]);
                        }
                        i = i + 1;
                    },
                    Option::None => {
                        proof {
                            assert(fs@.take(n as int) =~= fs@);
                            lemma_named_fields_fail(fs@, i as int, reg@, ctx@);
                        }
                        return Option::None;
                    },
                }
            }
            proof {
                assert(fs@.take(n as int) =~= fs@);
            }
            Option::Some(out)
        },
        RawFields::Unnamed(ts) => {
            let n = ts.len();
            let mut out: Vec<(String, TypeDef)> = Vec::new();
            let mut i: usize = 0;
            proof {
                assert(ts@.take(0) =~= Seq::empty());
                assert(crate::types::fields_view(out@) =~= Seq::<(Seq<char>, TypeDefV)>::empty());
            }
            while i < n
                invariant
                    i <= n,
                    n == ts.len(),
                    spec_struct_fields(*f, reg@, ctx@) == spec_pos_fields(ts@, reg@, ctx@),
                    spec_pos_fields(ts@.take(i as int), reg@, ctx@) == Option::Some(
                        crate::types::fields_view(out@),
                    ),
                decreases n - i,
            {
                match td_of(&ts[i], reg, ctx) {
                    Option::Some(t) => {
                        let ghost pre = out@;
                        let mut fname = "_".to_owned();
                        let num = crate::strutil::usize_to_string(i);
                        fname.append(num.as_str());
                        proof {
                            reveal_strlit("_");
                            assert(fname@ =~= seq!['_'] + crate::strutil::dec_str(i as nat));
                        }
                        out.push((fname, t));
                        proof {
                            assert(out@.drop_last() =~= pre);
                            assert(ts@.take(i + 1).drop_last() =~= ts@.take(i as int));
                            assert(ts@.take(i + 1).last() == ts@[i as int]);
                            assert(ts@.take(i + 1).len() - 1 == i as int);
                        }
                        i = i + 1;
                    },
                    Option::None => {
                        proof {
                            assert(ts@.take(n as int) =~= ts@);
                            lemma_pos_fields_fail(ts@, i as int, reg@, ctx@);
                        }
                        return Option::None;
                    },
                }
            }
            proof {
                assert(ts@.take(n as int) =~= ts@);
            }
            Option::Some(out)
        },
    }
}

/// A failing field type at `i` fails the whole named-field list.
proof fn lemma_named_fields_fail(
    fs: Seq<(String, RawType)>,
    i: int,
    reg: Seq<(Seq<char>, TypeMappingV)>,
    ctx: Seq<(Seq<char>, Seq<char>)>,
)
    requires
        0 <= i < fs.len(),
        spec_td(fs[i].1, reg, ctx) is None,
    ensures
        spec_named_fields(fs, reg, ctx) is None,
    decreases fs.len(),
{
    if fs.len() > 0 {
        if i < fs.len() - 1 {
            lemma_named_fields_fail(fs.drop_last(), i, reg, ctx);
        }
    }
}

/// A failing element type at `i` fails the whole positional-field list.
proof fn lemma_pos_fields_fail(
    ts: Seq<RawType>,
    i: int,
    reg: Seq<(Seq<char>, TypeMappingV)>,
    ctx: Seq<(Seq<char>, Seq<char>)>,
)
    requires
        0 <= i < ts.len(),
        spec_td(ts[i], reg, ctx) is None,
    ensures
        spec_pos_fields(ts, reg, ctx) is None,
        spec_plain_tds(ts, reg, ctx) is None,
    decreases ts.len(),
{
    if ts.len() > 0 {
        if i < ts.len() - 1 {
            lemma_pos_fields_fail(ts.drop_last(), i, reg, ctx);
        }
    }
}

/// A failing variant at `i` fails the whole variant list.
proof fn lemma_variants_fail(
    vs: Seq<RawVariant>,
    i: int,
    reg: Seq<(Seq<char>, TypeMappingV)>,
    ctx: Seq<(Seq<char>, Seq<char>)>,
)
    requires
        0 <= i < vs.len(),
        spec_variant(vs[i], reg, ctx) is None,
    ensures
        spec_variants(vs, reg, ctx) is None,
    decreases vs.len(),
{
    if vs.len() > 0 {
        if i < vs.len() - 1 {
            lemma_variants_fail(vs.drop_last(), i, reg, ctx);
        }
    }
}

/// Exec counterpart of [`spec_variant`].
fn variant_of_raw(v: &RawVariant, reg: &TypeRegistry, ctx: &AliasTable) -> (r: Option<
    crate::types::EnumVariant,
>)
    ensures
        match r {
            Option::Some(ev) => spec_variant(*v, reg@, ctx@) == Option::Some(ev@),
            Option::None => spec_variant(*v, reg@, ctx@) is None,
        },
{
    match &v.fields {
        RawFields::Unit => Option::Some(crate::types::EnumVariant::Unit(v.name.clone())),
        RawFields::Unnamed(ts) => {
            let n = ts.len();
            let mut out: Vec<TypeDef> = Vec::new();
            let mut i: usize = 0;
            proof {
                assert(ts@.take(0) =~= Seq::empty());
                assert(crate::types::tds_view(out@) =~= Seq::<TypeDefV>::empty());
            }
            while i < n
                invariant
                    i <= n,
                    n == ts.len(),
                    v.fields is Unnamed,
                    (match spec_plain_tds(ts@, reg@, ctx@) {
                        Option::Some(tds) => spec_variant(*v, reg@, ctx@) == Option::Some(
                            crate::types::EnumVariantV::Tuple(v.name@, tds),
                        ),
                        Option::None => spec_variant(*v, reg@, ctx@) is None,
                    }),
                    spec_plain_tds(ts@.take(i as int), reg@, ctx@) == Option::Some(
                        crate::types::tds_view(out@),
                    ),
                decreases n - i,
            {
                match td_of(&ts[i], reg, ctx) {
                    Option::Some(t) => {
                        let ghost pre = out@;
                        out.push(t);
                        proof {
                            assert(out@.drop_last() =~= pre);
                            assert(ts@.take(i + 1).drop_last() =~= ts@.take(i as int));
                            assert(ts@.take(i + 1).last() == ts@[i as int]);
                        }
                        i = i + 1;
                    },
                    Option::None => {
                        proof {
                            assert(ts@.take(n as int) =~= ts@);
                            lemma_pos_fields_fail(ts@, i as int, reg@, ctx@);
                        }
                        return Option::None;
                    },
                }
            }
            proof {
                assert(ts@.take(n as int) =~= ts@);
            }
            Option::Some(crate::types::EnumVariant::Tuple(v.name.clone(), out))
        },
        RawFields::Named(fs) => {
            let n = fs.len();
            let mut out: Vec<(String, TypeDef)> = Vec::new();
            let mut i: usize = 0;
            proof {
                assert(fs@.take(0) =~= Seq::empty());
                assert(crate::types::fields_view(out@) =~= Seq::<(Seq<char>, TypeDefV)>::empty());
            }
            while i < n
                invariant
                    i <= n,
                    n == fs.len(),
                    v.fields is Named,
                    (match spec_named_fields(fs@, reg@, ctx@) {
                        Option::Some(flds) => spec_variant(*v, reg@, ctx@) == Option::Some(
                            crate::types::EnumVariantV::Struct(v.name@, flds),
                        ),
                        Option::None => spec_variant(*v, reg@, ctx@) is None,
                    }),
                    spec_named_fields(fs@.take(i as int), reg@, ctx@) == Option::Some(
                        crate::types::fields_view(out@),
                    ),
                decreases n - i,
            {
                match td_of(&fs[i].1, reg, ctx) {
                    Option::Some(t) => {
                        let ghost pre = out@;
                        out.push((fs[i].0.clone(), t));
                        proof {
                            assert(out@.drop_last() =~= pre);
                            assert(fs@.take(i + 1).drop_last() =~= fs@.take(i as int));
                            assert(fs@.take(i + 1).last() == fs@[i as int]);
                        }
                        i = i + 1;
                    },
                    Option::None => {
                        proof {
                            assert(fs@.take(n as int) =~= fs@);
                            lemma_named_fields_fail(fs@, i as int, reg@, ctx@);
                        }
                        return Option::None;
                    },
                }
            }
            proof {
                assert(fs@.take(n as int) =~= fs@);
            }
            Option::Some(crate::types::EnumVariant::Struct(v.name.clone(), out))
        },
    }
}

/// Exec counterpart of [`decl_entry`].
pub fn decl_to_entry(d: &RawDecl, reg: &TypeRegistry, ctx: &AliasTable) -> (r: Option<
    crate::generator::TypeEntry,
>)
    ensures
        match r {
            Option::Some(e) => decl_entry(*d, reg@, ctx@) == Option::Some(e@),
            Option::None => decl_entry(*d, reg@, ctx@) is None,
        },
{
    let archived: Option<String> = match &d.archived {
        Option::Some(a) => Option::Some(a.clone()),
        Option::None => Option::None,
    };
    if d.is_enum {
        let n = d.variants.len();
        let mut out: Vec<crate::types::EnumVariant> = Vec::new();
        let mut i: usize = 0;
        proof {
            assert(d.variants@.take(0) =~= Seq::empty());
            assert(crate::generator::variants_view(out@) =~= Seq::<
                crate::types::EnumVariantV,
            >::empty());
        }
        while i < n
            invariant
                i <= n,
                n == d.variants.len(),
                d.is_enum,
                spec_variants(d.variants@.take(i as int), reg@, ctx@) == Option::Some(
                    crate::generator::variants_view(out@),
                ),
            decreases n - i,
        {
            match variant_of_raw(&d.variants[i], reg, ctx) {
                Option::Some(ev) => {
                    let ghost pre = out@;
                    out.push(ev);
                    proof {
                        assert(out@.drop_last() =~= pre);
                        assert(d.variants@.take(i + 1).drop_last() =~= d.variants@.take(
                            i as int,
                        ));
                        assert(d.variants@.take(i + 1).last() == d.variants@[i as int]);
                    }
                    i = i + 1;
                },
                Option::None => {
                    proof {
                        assert(d.variants@.take(n as int) =~= d.variants@);
                        lemma_variants_fail(d.variants@, i as int, reg@, ctx@);
                    }
                    return Option::None;
                },
            }
        }
        proof {
            assert(d.variants@.take(n as int) =~= d.variants@);
        }
        Option::Some(
            crate::generator::TypeEntry {
                name: d.name.clone(),
                archived_name: archived,
                kind: crate::generator::TypeKind::Enum(out),
            },
        )
    } else {
        match struct_fields_of(&d.fields, reg, ctx) {
            Option::Some(fields) => Option::Some(
                crate::generator::TypeEntry {
                    name: d.name.clone(),
                    archived_name: archived,
                    kind: crate::generator::TypeKind::Struct(fields),
                },
            ),
            Option::None => Option::None,
        }
    }
}

/// Whether a declaration carries any marker derive, resolved through the
/// alias context.
pub fn decl_is_selected(d: &RawDecl, ctx: &AliasTable, markers: &Vec<String>) -> (r: bool)
    ensures
        r == decl_selected(d.derives@, ctx@, crate::strutil::strs_view(markers@)),
{
    decl_selected_exec(&d.derives, ctx, markers)
}


// ------------------------------------------------------------------
// Applying a unit's declarations to a generator
// ------------------------------------------------------------------

/// `g` with one more diagnostic line.
pub open spec fn with_diag(
    g: crate::generator::CodeGeneratorV,
    m: Seq<char>,
) -> crate::generator::CodeGeneratorV {
    crate::generator::CodeGeneratorV { diagnostics: g.diagnostics.push(m), ..g }
}

/// The diagnostic for a remote projection whose target is not registered.
pub open spec fn diag_unregistered_remote(name: Seq<char>, target: Seq<char>) -> Seq<char> {
    "remote projection `"@ + name + "` targets `"@ + target + "`, which is not registered"@
}

/// The diagnostic for a declaration dropped because a type failed to map.
pub open spec fn diag_dropped_decl(name: Seq<char>) -> Seq<char> {
    "declaration `"@ + name + "` was dropped: a field or variant type could not be mapped"@
}

/// The diagnostic for a source unit that failed to parse.
pub open spec fn diag_parse_failure() -> Seq<char> {
    "a source unit failed to parse and was skipped"@
}

/// Whether the registry knows `target`, under the full path or under its
/// trailing segment.
pub open spec fn remote_registered(
    reg: Seq<(Seq<char>, TypeMappingV)>,
    target: Seq<char>,
) -> bool {
    reg_lookup(reg, target) is Some || reg_lookup(reg, last_path_seg(target)) is Some
}

/// The generator state after one declaration: unchanged when no marker
/// derive selects it; skipped with a validation of its target when it is a
/// remote projection standing in for a type defined elsewhere; dropped
/// with a diagnostic when a field or variant type fails to map; otherwise
/// its entry is inserted, replacing a same-named entry.
pub open spec fn apply_decl(
    g: crate::generator::CodeGeneratorV,
    d: RawDecl,
    ctx: Seq<(Seq<char>, Seq<char>)>,
) -> crate::generator::CodeGeneratorV {
    if !decl_selected(d.derives@, ctx, g.markers) {
        g
    } else if d.remote_target is Some {
        let target = join_path(d.remote_target->0@);
        if remote_registered(g.registry, target) {
            g
        } else {
            with_diag(g, diag_unregistered_remote(d.name@, target))
        }
    } else {
        match decl_entry(d, g.registry, ctx) {
            Option::Some(e) => crate::generator::with_entries(
                g,
                crate::generator::entry_insert(g.entries, e),
            ),
            Option::None => with_diag(g, diag_dropped_decl(d.name@)),
        }
    }
}

/// The generator state after every declaration of a unit, in order, all
/// resolved through the same whole-unit alias context.
pub open spec fn apply_items(
    g: crate::generator::CodeGeneratorV,
    items: Seq<RawItem>,
    ctx: Seq<(Seq<char>, Seq<char>)>,
) -> crate::generator::CodeGeneratorV
    decreases items.len(),
{
    if items.len() == 0 {
        g
    } else {
        let g2 = apply_items(g, items.drop_last(), ctx);
        match items.last() {
            RawItem::Decl(d) => apply_decl(g2, d, ctx),
            _ => g2,
        }
    }
}

/// The generator state after one whole source unit.
pub open spec fn spec_add_unit(
    g: crate::generator::CodeGeneratorV,
    unit: SourceUnit,
) -> crate::generator::CodeGeneratorV {
    apply_items(g, unit.items@, unit_ctx(unit.items@))
}

} // verus!
