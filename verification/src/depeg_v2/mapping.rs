//! Where a tenant reads the market, the price and the time of an event from.

use vstd::prelude::*;

use crate::assoc::is_place;
use crate::assoc::lemma_lookup;
use crate::assoc::lemma_put;
use crate::assoc::lookup;
use crate::assoc::put;
use crate::double::Double;
use crate::event::filled;
use crate::event::filled_text;
use crate::event::UnifiedEvent;
use crate::json::either;
use crate::json::list_view;
use crate::json::member_of;
use crate::json::member_text;
use crate::json::members_view;
use crate::json::put_member;
use crate::json::text_in;
use crate::json::Json;
use crate::json::JsonView;
use crate::json::Members;
use crate::settings::binding_source;
use crate::settings::bindings_in;
use crate::settings::bound_source;
use crate::text::same;
use crate::text::text_option;
use crate::text::texts;
use crate::text::trimmed;
use crate::time::Timestamp;

verus! {

/// What a tenant says of the streams of a source: which are active, and how the fields of
/// some are to be read.
#[derive(Debug)]
pub struct SourceBindingRuntimeOverride {
    pub active_stream_ids: Vec<String>,
    pub stream_field_mappings: Vec<(String, Json)>,
}

pub struct OverrideView {
    pub active: Seq<Seq<char>>,
    pub mappings: Members,
}

impl View for SourceBindingRuntimeOverride {
    type V = OverrideView;

    open spec fn view(&self) -> OverrideView {
        OverrideView {
            active: texts(self.active_stream_ids@),
            mappings: members_view(self.stream_field_mappings@),
        }
    }
}

/// What a tenant says of its sources.
pub type SourceOverrides = Seq<(Seq<char>, OverrideView)>;

/// The contents of what a tenant says of its sources.
pub open spec fn overrides_view(v: Seq<(String, SourceBindingRuntimeOverride)>) -> SourceOverrides {
    v.map_values(|e: (String, SourceBindingRuntimeOverride)| (e.0@, e.1@))
}

/// The texts of a list that have something in them.
pub open spec fn filled_texts(s: Seq<JsonView>) -> Seq<Seq<char>>
    decreases s.len(),
{
    if s.len() == 0 {
        Seq::<Seq<char>>::empty()
    } else {
        match filled(s.last().text()) {
            Some(t) => filled_texts(s.drop_last()).push(t),
            None => filled_texts(s.drop_last()),
        }
    }
}

/// Whether the field mappings of a stream were not understood.
pub open spec fn is_rejected(rejected: Seq<(usize, usize)>, binding: int, stream: int) -> bool {
    exists|k: int|
        0 <= k < rejected.len() && (#[trigger] rejected[k]).0 == binding && rejected[k].1 == stream
}

/// The field mappings of a stream: a list of at least one.
pub open spec fn mappings_in(stream: JsonView) -> Option<JsonView> {
    match stream.get("field_mappings"@) {
        Some(m) => match m.list() {
            Some(l) => if l.len() > 0 {
                Some(m)
            } else {
                None
            },
            None => None,
        },
        None => None,
    }
}

/// The field mappings of the first `n` streams of a binding, without those that were not
/// understood.
pub open spec fn stream_mappings(
    streams: Seq<JsonView>,
    binding: int,
    rejected: Seq<(usize, usize)>,
    n: nat,
) -> Members
    decreases n,
{
    if n == 0 {
        Seq::<(Seq<char>, JsonView)>::empty()
    } else {
        let before = stream_mappings(streams, binding, rejected, (n - 1) as nat);
        let stream = streams[n - 1];
        match (filled(text_in(stream.get("id"@))), mappings_in(stream)) {
            (Some(id), Some(m)) => if is_rejected(rejected, binding, n - 1) {
                before
            } else {
                put(before, id, m)
            },
            _ => before,
        }
    }
}

/// A list under a name of an optional document; nothing where there is none.
pub open spec fn list_under(v: Option<JsonView>, key: Seq<char>) -> Seq<JsonView> {
    match v {
        Some(v) => match v.get(key) {
            Some(l) => match l.list() {
                Some(s) => s,
                None => Seq::<JsonView>::empty(),
            },
            None => Seq::<JsonView>::empty(),
        },
        None => Seq::<JsonView>::empty(),
    }
}

/// What a binding says of the streams of its source.
pub open spec fn override_in(
    binding: JsonView,
    place: int,
    rejected: Seq<(usize, usize)>,
) -> OverrideView {
    let config = binding.get("binding_config"@);
    let streams = list_under(config, "streams"@);
    OverrideView {
        active: filled_texts(list_under(config, "active_stream_ids"@)),
        mappings: stream_mappings(streams, place, rejected, streams.len()),
    }
}

/// What the first `n` bindings say of the streams of their sources.
pub open spec fn overrides_in(
    bindings: Seq<JsonView>,
    rejected: Seq<(usize, usize)>,
    n: nat,
) -> SourceOverrides
    decreases n,
{
    if n == 0 {
        Seq::<(Seq<char>, OverrideView)>::empty()
    } else {
        let before = overrides_in(bindings, rejected, (n - 1) as nat);
        match bound_source(bindings[n - 1]) {
            Some(source) => {
                let o = override_in(bindings[n - 1], n - 1, rejected);
                if o.active.len() == 0 && o.mappings.len() == 0 {
                    before
                } else {
                    put(before, source, o)
                }
            },
            None => before,
        }
    }
}

fn in_rejected(rejected: &Vec<(usize, usize)>, binding: usize, stream: usize) -> (r: bool)
    ensures
        r == is_rejected(rejected@, binding as int, stream as int),
{
    let mut k: usize = 0;
    while k < rejected.len()
        invariant
            k <= rejected.len(),
            forall|j: int|
                0 <= j < k ==> !((#[trigger] rejected@[j]).0 == binding && rejected@[j].1
                    == stream),
        decreases rejected.len() - k,
    {
        if rejected[k].0 == binding && rejected[k].1 == stream {
            assert(rejected@[k as int].0 == binding);
            return true;
        }
        k = k + 1;
    }
    false
}

fn read_list<'a>(config: Option<&'a Json>, key: &str, none: &'a Vec<Json>) -> (r: &'a Vec<Json>)
    requires
        none@.len() == 0,
    ensures
        list_view(r@) == list_under(crate::json::found(config), key@),
{
    assert(list_view(none@) =~= Seq::<JsonView>::empty());
    match config {
        Some(c) => match c.get(key) {
            Some(l) => match l.as_array() {
                Some(v) => v,
                None => none,
            },
            None => none,
        },
        None => none,
    }
}

fn read_filled_texts(items: &Vec<Json>) -> (r: Vec<String>)
    ensures
        texts(r@) == filled_texts(list_view(items@)),
{
    let ghost all = list_view(items@);
    let mut r: Vec<String> = Vec::new();
    let mut i: usize = 0;
    assert(texts(r@) =~= Seq::<Seq<char>>::empty());
    while i < items.len()
        invariant
            i <= items.len(),
            all == list_view(items@),
            texts(r@) == filled_texts(all.take(i as int)),
        decreases items.len() - i,
    {
        assert(all.take(i + 1).drop_last() =~= all.take(i as int));
        let ghost before = r@;
        match filled_text(items[i].as_str()) {
            Some(t) => {
                r.push(t);
                assert(texts(r@) =~= texts(before).push(t@));
            },
            None => {},
        }
        i = i + 1;
    }
    assert(all.take(all.len() as int) =~= all);
    r
}

fn read_mappings(stream: &Json) -> (r: Option<&Json>)
    ensures
        crate::json::found(r) == mappings_in(stream@),
{
    match stream.get("field_mappings") {
        Some(m) => match m.as_array() {
            Some(l) => if l.len() > 0 {
                Some(m)
            } else {
                None
            },
            None => None,
        },
        None => None,
    }
}

fn read_override(binding: &Json, place: usize, rejected: &Vec<(usize, usize)>) -> (r:
    SourceBindingRuntimeOverride)
    ensures
        r@ == override_in(binding@, place as int, rejected@),
{
    let none: Vec<Json> = Vec::new();
    let config: Option<&Json> = binding.get("binding_config");
    let active: Vec<String> = read_filled_texts(read_list(config, "active_stream_ids", &none));
    let streams: &Vec<Json> = read_list(config, "streams", &none);
    let ghost all = list_view(streams@);
    let mut mappings: Vec<(String, Json)> = Vec::new();
    let mut j: usize = 0;
    assert(members_view(mappings@) =~= Seq::<(Seq<char>, JsonView)>::empty());
    while j < streams.len()
        invariant
            j <= streams.len(),
            all == list_view(streams@),
            members_view(mappings@) == stream_mappings(all, place as int, rejected@, j as nat),
        decreases streams.len() - j,
    {
        let stream: &Json = &streams[j];
        assert(all[j as int] == stream@);
        match (filled_text(member_text(stream.get("id"))), read_mappings(stream)) {
            (Some(id), Some(m)) => {
                if !in_rejected(rejected, place, j) {
                    put_member(&mut mappings, id.as_str(), m.copy());
                }
            },
            _ => {},
        }
        j = j + 1;
    }
    SourceBindingRuntimeOverride { active_stream_ids: active, stream_field_mappings: mappings }
}

fn place_of_source(v: &Vec<(String, SourceBindingRuntimeOverride)>, source: &str) -> (i: usize)
    ensures
        is_place(overrides_view(v@), source@, i as int),
{
    let ghost m = overrides_view(v@);
    let mut i: usize = 0;
    while i < v.len()
        invariant
            i <= v.len(),
            m == overrides_view(v@),
            forall|k: int| 0 <= k < i ==> (#[trigger] m[k]).0 != source@,
        decreases v.len() - i,
    {
        if same(v[i].0.as_str(), source) {
            return i;
        }
        assert(m[i as int].0 != source@);
        i = i + 1;
    }
    i
}

/// What the bindings of a configuration say of the streams of their sources. `rejected`
/// names the binding and the stream of the field mappings that were not understood.
pub fn parse_source_mapping_overrides(config: &Json, rejected: &Vec<(usize, usize)>) -> (r: Vec<
    (String, SourceBindingRuntimeOverride),
>)
    ensures
        overrides_view(r@) == match bindings_in(config@) {
            Some(s) => overrides_in(s, rejected@, s.len()),
            None => Seq::<(Seq<char>, OverrideView)>::empty(),
        },
{
    let mut r: Vec<(String, SourceBindingRuntimeOverride)> = Vec::new();
    assert(overrides_view(r@) =~= Seq::<(Seq<char>, OverrideView)>::empty());
    let bindings: &Vec<Json> = match config.get("source_bindings") {
        Some(b) => match b.as_array() {
            Some(items) => items,
            None => {
                return r;
            },
        },
        None => {
            return r;
        },
    };
    let ghost all = list_view(bindings@);
    let mut i: usize = 0;
    while i < bindings.len()
        invariant
            i <= bindings.len(),
            all == list_view(bindings@),
            overrides_view(r@) == overrides_in(all, rejected@, i as nat),
        decreases bindings.len() - i,
    {
        let binding: &Json = &bindings[i];
        assert(all[i as int] == binding@);
        match binding_source(binding) {
            Some(source) => {
                let o: SourceBindingRuntimeOverride = read_override(binding, i, rejected);
                if !(o.active_stream_ids.len() == 0 && o.stream_field_mappings.len() == 0) {
                    let k: usize = place_of_source(&r, source.as_str());
                    let ghost m = overrides_view(r@);
                    proof {
                        lemma_put(m, source@, o@, k as int);
                    }
                    if k < r.len() {
                        r.set(k, (source, o));
                        assert(overrides_view(r@) =~= m.update(k as int, (source@, o@)));
                    } else {
                        r.push((source, o));
                        assert(overrides_view(r@) =~= m.push((source@, o@)));
                    }
                }
            },
            None => {},
        }
        i = i + 1;
    }
    r
}

// ---------------------------------------------------------------------------
// Reading an event
// ---------------------------------------------------------------------------

/// The mappings of the first active stream that has some.
pub open spec fn first_active(active: Seq<Seq<char>>, mappings: Members) -> Option<JsonView>
    decreases active.len(),
{
    if active.len() == 0 {
        None
    } else {
        either(lookup(mappings, active[0]), first_active(active.skip(1), mappings))
    }
}

/// The field mappings that apply to an event of a source: those of the stream that it
/// names, else those of the first active stream that has some, else the only ones.
pub open spec fn mapping_of(o: OverrideView, payload: JsonView) -> Option<JsonView> {
    let named = match filled(text_in(payload.get("stream_config_id"@))) {
        Some(id) => lookup(o.mappings, id),
        None => None,
    };
    either(
        named,
        either(
            first_active(o.active, o.mappings),
            if o.mappings.len() == 1 {
                Some(o.mappings[0].1)
            } else {
                None
            },
        ),
    )
}

/// The field mappings that apply to an event of a source.
pub fn choose_mapping<'a>(o: &'a SourceBindingRuntimeOverride, event: &UnifiedEvent) -> (r: Option<
    &'a Json,
>)
    ensures
        crate::json::found(r) == mapping_of(o@, event.payload@),
{
    let mappings: &Vec<(String, Json)> = &o.stream_field_mappings;
    match filled_text(member_text(event.payload.get("stream_config_id"))) {
        Some(id) => match member_of(mappings, id.as_str()) {
            Some(m) => {
                return Some(m);
            },
            None => {},
        },
        None => {},
    }
    let ghost active = texts(o.active_stream_ids@);
    let mut i: usize = 0;
    assert(active.skip(0) =~= active);
    while i < o.active_stream_ids.len()
        invariant
            i <= o.active_stream_ids.len(),
            active == texts(o.active_stream_ids@),
            mappings == o.stream_field_mappings,
            first_active(active, members_view(mappings@)) == first_active(
                active.skip(i as int),
                members_view(mappings@),
            ),
            match filled(text_in(event.payload@.get("stream_config_id"@))) {
                Some(id) => lookup(members_view(mappings@), id) is None,
                None => true,
            },
        decreases o.active_stream_ids.len() - i,
    {
        assert(active.skip(i as int).skip(1) =~= active.skip(i + 1));
        match member_of(mappings, o.active_stream_ids[i].as_str()) {
            Some(m) => {
                return Some(m);
            },
            None => {},
        }
        i = i + 1;
    }
    if mappings.len() == 1 {
        Some(&mappings[0].1)
    } else {
        None
    }
}

/// What field mappings made of an event.
#[derive(Debug)]
pub struct MappedFields {
    pub market_key: Option<String>,
    pub price: Option<Double>,
    pub timestamp: Option<Timestamp>,
}

/// The market, the price and the time that an event stands for.
#[derive(Debug)]
pub struct EffectiveFields {
    pub market_key: Option<String>,
    pub price: Option<Double>,
    pub timestamp: Timestamp,
}

pub struct FieldsView {
    pub market_key: Option<Seq<char>>,
    pub price: Option<Double>,
    pub timestamp: Timestamp,
}

impl View for EffectiveFields {
    type V = FieldsView;

    open spec fn view(&self) -> FieldsView {
        FieldsView {
            market_key: text_option(self.market_key),
            price: self.price,
            timestamp: self.timestamp,
        }
    }
}

/// The market, the price and the time that an event stands for: what the field mappings
/// made of it as far as it makes sense, and what the event itself says otherwise.
pub open spec fn effective_fields(
    market_key: Option<Seq<char>>,
    price: Option<Double>,
    timestamp: Timestamp,
    mapped: Option<MappedFields>,
) -> FieldsView {
    match mapped {
        Some(m) => FieldsView {
            market_key: either(filled(text_option(m.market_key)), market_key),
            price: match m.price {
                Some(x) => if x.positive() {
                    m.price
                } else {
                    price
                },
                None => price,
            },
            timestamp: match m.timestamp {
                Some(t) => t,
                None => timestamp,
            },
        },
        None => FieldsView { market_key, price, timestamp },
    }
}

pub fn effective_event_fields(event: &UnifiedEvent, mapped: &Option<MappedFields>) -> (r:
    EffectiveFields)
    ensures
        r@ == effective_fields(
            text_option(event.market_key),
            event.price,
            event.timestamp,
            *mapped,
        ),
{
    let mut market_key: Option<String> = crate::text::copy_option(&event.market_key);
    let mut price: Option<Double> = event.price;
    let mut timestamp: Timestamp = event.timestamp;
    match mapped {
        Some(m) => {
            let key: Option<String> = match &m.market_key {
                Some(s) => filled_text(Some(s.as_str())),
                None => None,
            };
            if key.is_some() {
                market_key = key;
            }
            match m.price {
                Some(x) => {
                    if x.is_positive() {
                        price = Some(x);
                    }
                },
                None => {},
            }
            match m.timestamp {
                Some(t) => {
                    timestamp = t;
                },
                None => {},
            }
        },
        None => {},
    }
    EffectiveFields { market_key, price, timestamp }
}

/// What a tenant says of its sources.
#[derive(Debug)]
pub struct TenantOverrides {
    pub tenant_id: String,
    pub sources: Vec<(String, SourceBindingRuntimeOverride)>,
}

/// Tenants and what they say of their sources.
pub open spec fn tenants_view(v: Seq<TenantOverrides>) -> Seq<(Seq<char>, SourceOverrides)> {
    v.map_values(|t: TenantOverrides| (t.tenant_id@, overrides_view(t.sources@)))
}

/// The field mappings that apply to an event.
pub open spec fn mapping_for(
    v: Seq<(Seq<char>, SourceOverrides)>,
    tenant: Seq<char>,
    source: Seq<char>,
    payload: JsonView,
) -> Option<JsonView> {
    match lookup(v, tenant) {
        Some(m) => match lookup(m, source) {
            Some(o) => mapping_of(o, payload),
            None => None,
        },
        None => None,
    }
}

fn place_of_tenant(v: &Vec<TenantOverrides>, tenant: &str) -> (i: usize)
    ensures
        is_place(tenants_view(v@), tenant@, i as int),
{
    let ghost m = tenants_view(v@);
    let mut i: usize = 0;
    while i < v.len()
        invariant
            i <= v.len(),
            m == tenants_view(v@),
            forall|k: int| 0 <= k < i ==> (#[trigger] m[k]).0 != tenant@,
        decreases v.len() - i,
    {
        if same(v[i].tenant_id.as_str(), tenant) {
            return i;
        }
        assert(m[i as int].0 != tenant@);
        i = i + 1;
    }
    i
}

/// The field mappings that apply to an event.
pub fn mapping_for_event<'a>(v: &'a Vec<TenantOverrides>, event: &UnifiedEvent) -> (r: Option<
    &'a Json,
>)
    ensures
        crate::json::found(r) == mapping_for(
            tenants_view(v@),
            event.tenant_id@,
            event.source_id@,
            event.payload@,
        ),
{
    let i: usize = place_of_tenant(v, event.tenant_id.as_str());
    proof {
        lemma_lookup(tenants_view(v@), event.tenant_id@, i as int);
    }
    if i >= v.len() {
        return None;
    }
    let sources: &Vec<(String, SourceBindingRuntimeOverride)> = &v[i].sources;
    let k: usize = place_of_source(sources, event.source_id.as_str());
    proof {
        lemma_lookup(overrides_view(sources@), event.source_id@, k as int);
    }
    if k >= sources.len() {
        return None;
    }
    choose_mapping(&sources[k].1, event)
}

/// Notes what a tenant says of its sources.
pub fn note_overrides(
    v: &mut Vec<TenantOverrides>,
    tenant_id: &str,
    sources: Vec<(String, SourceBindingRuntimeOverride)>,
)
    ensures
        tenants_view(final(v)@) == put(
            tenants_view(old(v)@),
            tenant_id@,
            overrides_view(sources@),
        ),
{
    let i: usize = place_of_tenant(v, tenant_id);
    let ghost m = tenants_view(v@);
    proof {
        lemma_put(m, tenant_id@, overrides_view(sources@), i as int);
    }
    let entry = TenantOverrides { tenant_id: tenant_id.to_owned(), sources };
    if i < v.len() {
        v.set(i, entry);
        assert(tenants_view(v@) =~= m.update(i as int, (tenant_id@, overrides_view(sources@))));
    } else {
        v.push(entry);
        assert(tenants_view(v@) =~= m.push((tenant_id@, overrides_view(sources@))));
    }
}

// ---------------------------------------------------------------------------
// Laws
// ---------------------------------------------------------------------------

/// The streams that a binding makes active are those of its list, in their order, without the
/// blank ones.
pub proof fn law_active_streams_are_listed(s: Seq<JsonView>, t: Seq<char>)
    ensures
        trimmed(t).len() > 0 ==> filled_texts(s.push(JsonView::Text(t))) == filled_texts(s).push(
            trimmed(t),
        ),
        trimmed(t).len() == 0 ==> filled_texts(s.push(JsonView::Text(t))) == filled_texts(s),
        filled_texts(s.push(JsonView::Null)) == filled_texts(s),
{
    assert(s.push(JsonView::Text(t)).drop_last() =~= s);
    assert(s.push(JsonView::Null).drop_last() =~= s);
}

/// The field mappings of a stream are those of the last stream with its name that has some that
/// were understood.
pub proof fn law_streams_have_their_mappings(
    streams: Seq<JsonView>,
    binding: int,
    rejected: Seq<(usize, usize)>,
    n: nat,
    i: int,
    id: Seq<char>,
)
    requires
        n <= streams.len(),
        -1 <= i < n,
        i >= 0 ==> maps_stream(streams[i], id) && !is_rejected(rejected, binding, i),
        forall|k: int|
            i < k < n ==> !maps_stream(#[trigger] streams[k], id) || is_rejected(
                rejected,
                binding,
                k,
            ),
    ensures
        i >= 0 ==> lookup(stream_mappings(streams, binding, rejected, n), id) == streams[i].get(
            "field_mappings"@,
        ),
        i == -1 ==> lookup(stream_mappings(streams, binding, rejected, n), id) is None,
    decreases n,
{
    if n > 0 {
        let before = stream_mappings(streams, binding, rejected, (n - 1) as nat);
        let stream = streams[n - 1];
        if filled(text_in(stream.get("id"@))) is Some && mappings_in(stream) is Some {
            crate::assoc::law_lookup_after_put(
                before,
                filled(text_in(stream.get("id"@)))->0,
                mappings_in(stream)->0,
                id,
            );
        }
        if i < n - 1 {
            law_streams_have_their_mappings(streams, binding, rejected, (n - 1) as nat, i, id);
        }
    }
}

/// Whether a document describes the stream `id` with at least one field mapping.
pub open spec fn maps_stream(stream: JsonView, id: Seq<char>) -> bool {
    &&& stream.get("id"@) matches Some(JsonView::Text(t))
    &&& trimmed(t).len() > 0
    &&& trimmed(t) == id
    &&& stream.get("field_mappings"@) matches Some(JsonView::List(l))
    &&& l.len() > 0
}

/// A tenant's override for a source is that of the last binding of the source that is switched
/// on and says something of its streams.
pub proof fn law_sources_have_their_overrides(
    bindings: Seq<JsonView>,
    rejected: Seq<(usize, usize)>,
    n: nat,
    i: int,
    source: Seq<char>,
)
    requires
        n <= bindings.len(),
        -1 <= i < n,
        i >= 0 ==> overrides_source(bindings[i], i, rejected, source),
        forall|k: int|
            i < k < n ==> !overrides_source(#[trigger] bindings[k], k, rejected, source),
    ensures
        i >= 0 ==> lookup(overrides_in(bindings, rejected, n), source) == Some(
            override_in(bindings[i], i, rejected),
        ),
        i == -1 ==> lookup(overrides_in(bindings, rejected, n), source) is None,
    decreases n,
{
    if n > 0 {
        let before = overrides_in(bindings, rejected, (n - 1) as nat);
        let b = bindings[n - 1];
        if bound_source(b) is Some {
            crate::assoc::law_lookup_after_put(
                before,
                bound_source(b)->0,
                override_in(b, n - 1, rejected),
                source,
            );
        }
        if i < n - 1 {
            law_sources_have_their_overrides(bindings, rejected, (n - 1) as nat, i, source);
        }
    }
}

/// Whether a binding is for a source, switched on, and says something of its streams.
pub open spec fn overrides_source(
    binding: JsonView,
    place: int,
    rejected: Seq<(usize, usize)>,
    source: Seq<char>,
) -> bool {
    let o = override_in(binding, place, rejected);
    bound_source(binding) == Some(source) && (o.active.len() > 0 || o.mappings.len() > 0)
}

/// The mappings that apply are those of the stream that the event names; where it names none
/// that has some, those of the first active stream that has some; and where none has, the only
/// ones there are.
pub proof fn law_the_named_stream_goes_first(
    o: OverrideView,
    payload: JsonView,
    id: Seq<char>,
    i: int,
)
    requires
        0 <= i <= o.active.len(),
        forall|k: int| 0 <= k < i ==> lookup(o.mappings, #[trigger] o.active[k]) is None,
        i < o.active.len() ==> lookup(o.mappings, o.active[i]) is Some,
    ensures
        payload.get("stream_config_id"@) == Some(JsonView::Text(id)) && trimmed(id).len() > 0
            && lookup(o.mappings, trimmed(id)) is Some ==> mapping_of(o, payload) == lookup(
            o.mappings,
            trimmed(id),
        ),
        payload.get("stream_config_id"@) is None && i < o.active.len() ==> mapping_of(o, payload)
            == lookup(o.mappings, o.active[i]),
        payload.get("stream_config_id"@) is None && i == o.active.len() && o.mappings.len() == 1
            ==> mapping_of(o, payload) == Some(o.mappings[0].1),
        payload.get("stream_config_id"@) is None && i == o.active.len() && o.mappings.len() != 1
            ==> mapping_of(o, payload) is None,
{
    lemma_first_active(o.active, o.mappings, i);
}

proof fn lemma_first_active(active: Seq<Seq<char>>, mappings: Members, i: int)
    requires
        0 <= i <= active.len(),
        forall|k: int| 0 <= k < i ==> lookup(mappings, #[trigger] active[k]) is None,
        i < active.len() ==> lookup(mappings, active[i]) is Some,
    ensures
        i < active.len() ==> first_active(active, mappings) == lookup(mappings, active[i]),
        i == active.len() ==> first_active(active, mappings) is None,
    decreases active.len(),
{
    if i > 0 {
        assert(lookup(mappings, active[0]) is None);
        let rest = active.skip(1);
        assert forall|k: int| 0 <= k < i - 1 implies lookup(mappings, #[trigger] rest[k]) is None by {
            assert(rest[k] == active[k + 1]);
        }
        lemma_first_active(rest, mappings, i - 1);
    }
}

/// What the mappings made of an event goes before what the event says, as far as it makes
/// sense: a market with a name, a price above zero, a time.
pub proof fn law_mapped_fields_go_first(
    market_key: Option<Seq<char>>,
    price: Option<Double>,
    timestamp: Timestamp,
    m: MappedFields,
)
    ensures
        ({
            let f = effective_fields(market_key, price, timestamp, Some(m));
            &&& m.market_key is Some && trimmed(m.market_key->0@).len() > 0 ==> f.market_key
                == Some(trimmed(m.market_key->0@))
            &&& m.market_key is None || trimmed(m.market_key->0@).len() == 0 ==> f.market_key
                == market_key
            &&& m.price is Some && m.price->0.positive() ==> f.price == m.price
            &&& m.price is None || !m.price->0.positive() ==> f.price == price
            &&& m.timestamp is Some ==> Some(f.timestamp) == m.timestamp
            &&& m.timestamp is None ==> f.timestamp == timestamp
        }),
        effective_fields(market_key, price, timestamp, None) == (FieldsView {
            market_key,
            price,
            timestamp,
        }),
{
}

/// The mappings of an event are those of its own tenant's source; where the tenant says nothing
/// of the source, there are none.
pub proof fn law_mappings_belong_to_the_source(
    v: Seq<(Seq<char>, SourceOverrides)>,
    tenant: Seq<char>,
    source: Seq<char>,
    payload: JsonView,
    said: SourceOverrides,
    o: OverrideView,
)
    ensures
        lookup(v, tenant) == Some(said) && lookup(said, source) == Some(o) ==> mapping_for(
            v,
            tenant,
            source,
            payload,
        ) == mapping_of(o, payload),
        lookup(v, tenant) == Some(said) && lookup(said, source) is None ==> mapping_for(
            v,
            tenant,
            source,
            payload,
        ) is None,
        lookup(v, tenant) is None ==> mapping_for(v, tenant, source, payload) is None,
{
}

} // verus!
