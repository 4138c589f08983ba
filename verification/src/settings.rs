//! What the configuration of a tenant says apart from its policies.

use vstd::prelude::*;

use crate::assoc::lemma_put;
use crate::assoc::put;
use crate::event::filled;
use crate::event::filled_text;
use crate::json::boolean_in;
use crate::json::member_bool;
use crate::json::member_text;
use crate::json::text_in;
use crate::json::Json;
use crate::json::JsonView;
use crate::text::contains_text;
use crate::text::listed;
use crate::text::same;
use crate::text::text_option;
use crate::text::texts;

verus! {

/// The configuration of a tenant for a pattern.
#[derive(Debug)]
pub struct ConfigEntry {
    pub tenant_id: String,
    pub pattern_id: String,
    pub config: Json,
}

/// The part of a configuration that is about detection.
pub open spec fn detection_part(config: JsonView) -> JsonView {
    match config.get("detection_config"@) {
        Some(part) => part,
        None => config,
    }
}

pub fn extract_detection_config(config: &Json) -> (r: &Json)
    ensures
        r@ == detection_part(config@),
{
    match config.get("detection_config") {
        Some(part) => part,
        None => config,
    }
}

/// The source of a binding that is not switched off.
pub open spec fn bound_source(binding: JsonView) -> Option<Seq<char>> {
    if boolean_in(binding.get("enabled"@)) == Some(false) {
        None
    } else {
        filled(text_in(binding.get("source_id"@)))
    }
}

pub fn binding_source(binding: &Json) -> (r: Option<String>)
    ensures
        text_option(r) == bound_source(binding@),
{
    if !member_bool(binding.get("enabled")).unwrap_or(true) {
        return None;
    }
    filled_text(member_text(binding.get("source_id")))
}

/// The sources of the bindings that are not switched off.
pub open spec fn bound_sources(s: Seq<JsonView>) -> Seq<Seq<char>>
    decreases s.len(),
{
    if s.len() == 0 {
        Seq::<Seq<char>>::empty()
    } else {
        match bound_source(s.last()) {
            Some(source) => bound_sources(s.drop_last()).push(source),
            None => bound_sources(s.drop_last()),
        }
    }
}

/// The bindings of a configuration.
pub open spec fn bindings_in(config: JsonView) -> Option<Seq<JsonView>> {
    match config.get("source_bindings"@) {
        Some(b) => b.list(),
        None => None,
    }
}

/// The sources that a configuration binds; `None` where it has no bindings.
pub fn extract_bound_source_ids(config: &Json) -> (r: Option<Vec<String>>)
    ensures
        match (r, bindings_in(config@)) {
            (Some(v), Some(s)) => texts(v@) == bound_sources(s),
            (None, None) => true,
            _ => false,
        },
{
    let items: &Vec<Json> = match config.get("source_bindings") {
        Some(b) => match b.as_array() {
            Some(items) => items,
            None => {
                return None;
            },
        },
        None => {
            return None;
        },
    };
    let ghost all = crate::json::list_view(items@);
    let mut r: Vec<String> = Vec::new();
    let mut i: usize = 0;
    assert(texts(r@) =~= Seq::<Seq<char>>::empty());
    while i < items.len()
        invariant
            i <= items.len(),
            all == crate::json::list_view(items@),
            texts(r@) == bound_sources(all.take(i as int)),
        decreases items.len() - i,
    {
        assert(all.take(i + 1).drop_last() =~= all.take(i as int));
        let ghost before = r@;
        match binding_source(&items[i]) {
            Some(source) => {
                r.push(source);
                assert(texts(r@) =~= texts(before).push(source@));
            },
            None => {},
        }
        i = i + 1;
    }
    assert(all.take(all.len() as int) =~= all);
    Some(r)
}

/// The sources that a tenant binds.
#[derive(Debug)]
pub struct TenantBindings {
    pub tenant_id: String,
    pub sources: Vec<String>,
}

/// The sources that a tenant binds; `None` where nothing is said of them.
pub open spec fn bound_to(v: Seq<TenantBindings>, tenant: Seq<char>) -> Option<Seq<String>>
    decreases v.len(),
{
    if v.len() == 0 {
        None
    } else if v[0].tenant_id@ == tenant {
        Some(v[0].sources@)
    } else {
        bound_to(v.skip(1), tenant)
    }
}

/// Whether events of a source are let in: it is bound, or the tenant binds none.
pub open spec fn let_in(v: Seq<TenantBindings>, tenant: Seq<char>, source: Seq<char>) -> bool {
    match bound_to(v, tenant) {
        Some(sources) => sources.len() == 0 || listed(sources, source),
        None => true,
    }
}

pub fn source_is_let_in(v: &Vec<TenantBindings>, tenant_id: &str, source_id: &str) -> (r: bool)
    ensures
        r == let_in(v@, tenant_id@, source_id@),
{
    let mut i: usize = 0;
    assert(v@.skip(0) =~= v@);
    while i < v.len()
        invariant
            i <= v.len(),
            bound_to(v@, tenant_id@) == bound_to(v@.skip(i as int), tenant_id@),
        decreases v.len() - i,
    {
        if same(v[i].tenant_id.as_str(), tenant_id) {
            return v[i].sources.len() == 0 || contains_text(&v[i].sources, source_id);
        }
        assert(v@.skip(i as int).skip(1) =~= v@.skip(i + 1));
        i = i + 1;
    }
    true
}

/// Tenants and the sources that they bind.
pub open spec fn bindings_view(v: Seq<TenantBindings>) -> Seq<(Seq<char>, Seq<Seq<char>>)> {
    v.map_values(|b: TenantBindings| (b.tenant_id@, texts(b.sources@)))
}

/// Notes the sources that a tenant binds.
pub fn bind_sources(v: &mut Vec<TenantBindings>, tenant_id: &str, sources: Vec<String>)
    ensures
        bindings_view(final(v)@) == put(
            bindings_view(old(v)@),
            tenant_id@,
            texts(sources@),
        ),
{
    let ghost before = bindings_view(v@);
    let mut i: usize = 0;
    while i < v.len() && !same(v[i].tenant_id.as_str(), tenant_id)
        invariant
            i <= v.len(),
            before == bindings_view(v@),
            v@ == old(v)@,
            forall|k: int| 0 <= k < i ==> (#[trigger] before[k]).0 != tenant_id@,
        decreases v.len() - i,
    {
        i = i + 1;
    }
    proof {
        lemma_put(before, tenant_id@, texts(sources@), i as int);
    }
    let entry = TenantBindings { tenant_id: tenant_id.to_owned(), sources };
    if i < v.len() {
        v.set(i, entry);
        assert(bindings_view(v@) =~= before.update(i as int, (tenant_id@, texts(sources@))));
    } else {
        v.push(entry);
        assert(bindings_view(v@) =~= before.push((tenant_id@, texts(sources@))));
    }
}

// ---------------------------------------------------------------------------
// Laws
// ---------------------------------------------------------------------------

/// What a configuration says of detection stands in a part of its own, or is all of it.
pub proof fn law_detection_has_its_part(config: JsonView, part: JsonView)
    ensures
        config.get("detection_config"@) == Some(part) ==> detection_part(config) == part,
        config.get("detection_config"@) is None ==> detection_part(config) == config,
{
}

/// A binding binds the source that it names, unless it is switched off.
pub proof fn law_bindings_hold_unless_switched_off(binding: JsonView, source: Seq<char>)
    requires
        crate::text::trimmed(source).len() > 0,
        binding.get("source_id"@) == Some(JsonView::Text(source)),
    ensures
        binding.get("enabled"@) == Some(JsonView::Bool(false)) ==> bound_source(binding) is None,
        binding.get("enabled"@) != Some(JsonView::Bool(false)) ==> bound_source(binding) == Some(
            crate::text::trimmed(source),
        ),
{
}

/// A configuration binds the sources of its bindings, all of them and no others.
pub proof fn law_every_binding_counts(s: Seq<JsonView>, source: Seq<char>)
    ensures
        bound_sources(s).contains(source) <==> exists|i: int|
            0 <= i < s.len() && bound_source(#[trigger] s[i]) == Some(source),
    decreases s.len(),
{
    if s.len() > 0 {
        let before = s.drop_last();
        law_every_binding_counts(before, source);
        let found = bound_sources(before);
        if exists|i: int| 0 <= i < before.len() && bound_source(#[trigger] before[i]) == Some(source) {
            let i = choose|i: int|
                0 <= i < before.len() && bound_source(#[trigger] before[i]) == Some(source);
            assert(bound_source(s[i]) == Some(source));
            let k = choose|k: int| 0 <= k < found.len() && found[k] == source;
            assert(bound_sources(s)[k] == source);
        }
        if bound_source(s.last()) == Some(source) {
            assert(bound_source(s[s.len() - 1]) == Some(source));
            assert(bound_sources(s)[found.len() as int] == source);
        }
        if exists|i: int| 0 <= i < s.len() && bound_source(#[trigger] s[i]) == Some(source) {
            let i = choose|i: int| 0 <= i < s.len() && bound_source(#[trigger] s[i]) == Some(source);
            if i < before.len() {
                assert(bound_source(before[i]) == Some(source));
            }
        }
        if bound_sources(s).contains(source) {
            let k = choose|k: int| 0 <= k < bound_sources(s).len() && bound_sources(s)[k] == source;
            if k < found.len() {
                assert(found[k] == source);
            }
        }
    }
}

/// A tenant of whom nothing is said, or who binds no source, is open to all of them; any other
/// is open to the sources that it binds.
pub proof fn law_bound_tenants_hear_their_sources(
    v: Seq<TenantBindings>,
    tenant: Seq<char>,
    source: Seq<char>,
    i: int,
)
    requires
        0 <= i <= v.len(),
        forall|k: int| 0 <= k < i ==> (#[trigger] v[k]).tenant_id@ != tenant,
        i < v.len() ==> v[i].tenant_id@ == tenant,
    ensures
        i == v.len() ==> let_in(v, tenant, source),
        i < v.len() ==> (let_in(v, tenant, source) <==> v[i].sources@.len() == 0 || texts(
            v[i].sources@,
        ).contains(source)),
    decreases v.len(),
{
    if i > 0 {
        let rest = v.skip(1);
        assert(v[0].tenant_id@ != tenant);
        assert forall|k: int| 0 <= k < i - 1 implies (#[trigger] rest[k]).tenant_id@ != tenant by {
            assert(v[k + 1].tenant_id@ != tenant);
        }
        law_bound_tenants_hear_their_sources(rest, tenant, source, i - 1);
        assert(bound_to(v, tenant) == bound_to(rest, tenant));
        if i < v.len() {
            assert(rest[i - 1] == v[i]);
        }
    } else if i < v.len() {
        let t = texts(v[i].sources@);
        if listed(v[i].sources@, source) {
            let k = choose|k: int|
                0 <= k < v[i].sources@.len() && #[trigger] v[i].sources@[k]@ == source;
            assert(t[k] == source);
        }
        if t.contains(source) {
            let k = choose|k: int| 0 <= k < t.len() && t[k] == source;
            assert(v[i].sources@[k]@ == source);
        }
    }
}

} // verus!
