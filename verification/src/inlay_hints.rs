use vstd::prelude::*;

use crate::filedb::{files_wf, spec_find_file, FileDatabase};
use crate::symbol_table::{
    build_stage, built_body, root_offsets_reset, scope_opened, scopes_stage, Scope, Symbol,
    SymbolTable, NO_SCOPE,
};
use crate::typedb::{SymbolType, SymbolTypeView, TypeDatabase};
use crate::utils::{range_contains, spec_range_contains, Position, Range};
use vstd::string::StringExecFns;

verus! {

/// One inline annotation: where to render it, and its label text.
pub struct InlayHintData {
    pub position: Position,
    pub label: String,
}

/// A declaration earns a type hint when its rendering position falls in
/// the requested range, it carries no explicit annotation, and its type
/// was inferred.
pub open spec fn spec_hint_emitted(s: Symbol, range: Range) -> bool {
    spec_range_contains(range, s.hint_position) && !s.static_typed && s.ttype is Some
}

/// The label of a type hint: a colon, a space, and the type's rendered
/// name.
pub open spec fn spec_hint_label(t: SymbolTypeView) -> Seq<char> {
    ": "@ + SymbolType::spec_to_string(t)
}

/// The hints one scope's declarations produce, in declaration order.
pub open spec fn spec_scope_hints(vars: Seq<Symbol>, range: Range) -> Seq<(Position, Seq<char>)>
    decreases vars.len(),
{
    if vars.len() == 0 {
        Seq::empty()
    } else {
        let rest = spec_scope_hints(vars.drop_last(), range);
        if spec_hint_emitted(vars.last(), range) {
            rest.push((vars.last().hint_position, spec_hint_label(vars.last().ttype->Some_0@)))
        } else {
            rest
        }
    }
}

/// The hints a whole table produces: its scopes in order, each scope's
/// declarations in order.
pub open spec fn spec_table_hints(scopes: Seq<Scope>, range: Range) -> Seq<(Position, Seq<char>)>
    decreases scopes.len(),
{
    if scopes.len() == 0 {
        Seq::empty()
    } else {
        spec_table_hints(scopes.drop_last(), range) + spec_scope_hints(scopes.last().vars@, range)
    }
}

/// The rendering-relevant view of built hints.
pub open spec fn spec_hint_views(hints: Seq<InlayHintData>) -> Seq<(Position, Seq<char>)> {
    hints.map_values(|h: InlayHintData| (h.position, h.label@))
}

/// Graceful degradation of hint generation: a declaration that earns no
/// hint — unresolved, annotated, or out of the requested range — adds
/// nothing, and every other declaration still yields exactly the hints
/// it would yield without it.
pub proof fn lemma_unhinted_symbol_skipped(vars: Seq<Symbol>, range: Range, k: int)
    requires
        0 <= k < vars.len(),
        !spec_hint_emitted(vars[k], range),
    ensures
        spec_scope_hints(vars, range) == spec_scope_hints(vars.remove(k), range),
    decreases vars.len(),
{
    if k == vars.len() - 1 {
        assert(vars.remove(k) =~= vars.drop_last());
    } else {
        lemma_unhinted_symbol_skipped(vars.drop_last(), range, k);
        assert(vars.remove(k).drop_last() =~= vars.drop_last().remove(k));
        assert(vars.remove(k).last() == vars.last());
    }
}

proof fn lemma_scope_hints_in_range(vars: Seq<Symbol>, range: Range)
    ensures
        forall|i: int|
            0 <= i < spec_scope_hints(vars, range).len() ==> spec_range_contains(
                range,
                spec_scope_hints(vars, range)[i].0,
            ),
    decreases vars.len(),
{
    if vars.len() > 0 {
        lemma_scope_hints_in_range(vars.drop_last(), range);
        let all = spec_scope_hints(vars, range);
        let rest = spec_scope_hints(vars.drop_last(), range);
        assert forall|i: int| 0 <= i < all.len() implies spec_range_contains(range, all[i].0) by {
            if i < rest.len() {
                assert(all[i] == rest[i]);
            }
        }
    }
}

/// Every produced hint sits inside the requested range.
pub proof fn lemma_table_hints_in_range(scopes: Seq<Scope>, range: Range)
    ensures
        forall|i: int|
            0 <= i < spec_table_hints(scopes, range).len() ==> spec_range_contains(
                range,
                spec_table_hints(scopes, range)[i].0,
            ),
    decreases scopes.len(),
{
    if scopes.len() > 0 {
        lemma_table_hints_in_range(scopes.drop_last(), range);
        lemma_scope_hints_in_range(scopes.last().vars@, range);
        let all = spec_table_hints(scopes, range);
        let left = spec_table_hints(scopes.drop_last(), range);
        let right = spec_scope_hints(scopes.last().vars@, range);
        assert forall|i: int| 0 <= i < all.len() implies spec_range_contains(range, all[i].0) by {
            if i < left.len() {
                assert(all[i] == left[i]);
            } else {
                assert(all[i] == right[i - left.len()]);
            }
        }
    }
}

/// Collects the type hints a built table yields for one requested range:
/// one hint per inferred, unannotated declaration rendered inside the
/// range, labelled with the inferred type.
pub fn hints_for_table(range: Range, table: &SymbolTable) -> (hints: Vec<InlayHintData>)
    ensures
        spec_hint_views(hints@) == spec_table_hints(table.map@, range),
{
    let mut hints: Vec<InlayHintData> = Vec::new();
    let n = table.map.len();
    proof {
        assert(spec_hint_views(hints@) =~= spec_table_hints(table.map@.take(0), range));
    }
    let mut i: usize = 0;
    while i < n
        invariant
            n == table.map@.len(),
            i <= n,
            spec_hint_views(hints@) == spec_table_hints(table.map@.take(i as int), range),
        decreases n - i,
    {
        let scope = &table.map[i];
        proof {
            assert(table.map@.take(i as int + 1).drop_last() =~= table.map@.take(i as int));
            assert(table.map@.take(i as int + 1).last() == table.map@[i as int]);
        }
        let m = scope.vars.len();
        proof {
            assert(spec_scope_hints(scope.vars@.take(0), range) =~= Seq::<(
                Position,
                Seq<char>,
            )>::empty());
            assert(spec_hint_views(hints@) + spec_scope_hints(scope.vars@.take(0), range)
                =~= spec_hint_views(hints@));
        }
        let ghost before = spec_hint_views(hints@);
        let mut j: usize = 0;
        while j < m
            invariant
                m == scope.vars@.len(),
                j <= m,
                spec_hint_views(hints@) == before + spec_scope_hints(
                    scope.vars@.take(j as int),
                    range,
                ),
            decreases m - j,
        {
            let symbol = &scope.vars[j];
            proof {
                assert(scope.vars@.take(j as int + 1).drop_last() =~= scope.vars@.take(j as int));
                assert(scope.vars@.take(j as int + 1).last() == scope.vars@[j as int]);
            }
            if range_contains(range, symbol.hint_position) && !symbol.static_typed {
                match &symbol.ttype {
                    Some(ttype) => {
                        let rendered = ttype.to_string();
                        let label = String::from_str(": ").concat(rendered.as_str());
                        let hint = InlayHintData { position: symbol.hint_position, label };
                        let ghost prev = hints@;
                        hints.push(hint);
                        proof {
                            assert(spec_hint_views(hints@) =~= spec_hint_views(prev).push(
                                (symbol.hint_position, spec_hint_label(symbol.ttype->Some_0@)),
                            ));
                        }
                    },
                    None => {},
                }
            }
            j += 1;
        }
        proof {
            assert(scope.vars@.take(m as int) =~= scope.vars@);
        }
        i += 1;
    }
    proof {
        assert(table.map@.take(n as int) =~= table.map@);
    }
    hints
}

/// Builds the scope table for the file open under `path` and collects
/// its type hints for the requested range; an unopened path yields no
/// hints. Every hint lies inside the range.
pub fn make_inlay_hints(
    range: Range,
    path: &str,
    typedb: &TypeDatabase,
    filedb: &FileDatabase,
) -> (hints: Vec<InlayHintData>)
    ensures
        spec_find_file(filedb.files@, path@) is None ==> hints@.len() == 0,
        forall|i: int|
            0 <= i < hints@.len() ==> spec_range_contains(range, (#[trigger] hints@[i]).position),
        spec_find_file(filedb.files@, path@) matches Some(f) ==> exists|
            so: Seq<Scope>,
            sb: Seq<Scope>,
            scopes: Seq<Scope>,
            cp: Option<SymbolType>,
        |
            #![trigger scopes_stage(so), scopes_stage(sb), build_stage(scopes, cp)]
            scope_opened(Seq::<Scope>::empty(), so, f.syntax, NO_SCOPE) && scopes_stage(sb)
                && built_body(*typedb, so, Option::<SymbolType>::None, sb, cp, f.syntax, 0)
                && root_offsets_reset(sb, scopes, 0) && spec_hint_views(hints@)
                == spec_table_hints(scopes, range),
{
    let source_file = match filedb.get_file(path) {
        Some(f) => f,
        None => {
            return Vec::new();
        },
    };
    let mut st = SymbolTable::new(typedb);
    proof {
        assert(crate::symbol_table::scopes_wf(st.map@));
    }
    st.build_table(&source_file.syntax);
    let hints = hints_for_table(range, &st);
    proof {
        lemma_table_hints_in_range(st.map@, range);
        assert forall|i: int|
            0 <= i < hints@.len() implies spec_range_contains(
            range,
            (#[trigger] hints@[i]).position,
        ) by {
            assert(spec_hint_views(hints@)[i].0 == hints@[i].position);
        }
        let (so, sb) = choose|so: Seq<Scope>, sb: Seq<Scope>|
            #![trigger scope_opened(Seq::<Scope>::empty(), so, source_file.syntax, NO_SCOPE), scopes_stage(sb)]
            scope_opened(Seq::<Scope>::empty(), so, source_file.syntax, NO_SCOPE) && scopes_stage(
                sb,
            ) && built_body(
                *typedb,
                so,
                Option::<SymbolType>::None,
                sb,
                st.class_parent,
                source_file.syntax,
                0,
            ) && root_offsets_reset(sb, st.map@, 0);
        assert(scopes_stage(so));
        assert(scopes_stage(sb));
        assert(build_stage(st.map@, st.class_parent));
    }
    hints
}

} // verus!
