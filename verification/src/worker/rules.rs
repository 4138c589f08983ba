//! Where the worker's rules and chain configurations come from.

use vstd::prelude::*;

use crate::aggregation::double;
use crate::double::Double;
use crate::event::numbers_view;
use crate::event::str_option;
use crate::order::arrange;
use crate::order::arranged;
use crate::order::in_order;
use crate::order::lemma_arranged;
use crate::order::lemma_arranged_items;
use crate::order::Ranked;
use crate::text::alike;
use crate::text::chars_of;
use crate::text::comes_before;
use crate::text::copy_texts;
use crate::text::one_text;
use crate::text::precedes;
use crate::text::same;
use crate::text::same_ignoring_case;
use crate::text::text_of;
use crate::text::text_option;
use crate::text::texts;

verus! {

/// The bits of 5.0.
pub const FALLBACK_DIVERGENCE_BITS: u64 = 0x4014_0000_0000_0000;

// ---------------------------------------------------------------------------
// Rule files
// ---------------------------------------------------------------------------

/// An entry of a directory.
#[derive(Debug)]
pub struct DirEntry {
    pub name: String,
    pub content: DirContent,
}

#[derive(Debug)]
pub enum DirContent {
    File,
    Dir(Vec<DirEntry>),
}

/// A file, by the names that lead to it from the root.
#[derive(Debug)]
pub struct RuleFile {
    pub path: Vec<String>,
}

/// The place of the last `.` in a name, -1 where it has none.
pub open spec fn last_dot(s: Seq<char>) -> int
    decreases s.len(),
{
    if s.len() == 0 {
        -1
    } else if s.last() == '.' {
        s.len() - 1
    } else {
        last_dot(s.drop_last())
    }
}

/// What stands behind the last `.` of a name, unless the name begins with it.
pub open spec fn extension(name: Seq<char>) -> Option<Seq<char>> {
    let i = last_dot(name);
    if i <= 0 {
        None
    } else {
        Some(name.skip(i + 1))
    }
}

fn file_extension(name: &str) -> (r: Option<String>)
    ensures
        text_option(r) == extension(name@),
{
    let v: Vec<char> = chars_of(name);
    let mut i: usize = v.len();
    assert(v@.take(i as int) =~= v@);
    while i > 0 && v[i - 1] != '.'
        invariant
            i <= v.len(),
            last_dot(v@) == last_dot(v@.take(i as int)),
        decreases i,
    {
        assert(v@.take(i as int).drop_last() =~= v@.take(i - 1));
        i = i - 1;
    }
    if i <= 1 {
        return None;
    }
    assert(v@.skip(i as int) =~= v@.subrange(i as int, v@.len() as int));
    Some(text_of(&v, i, v.len()))
}

/// Whether a name is that of a directory with protocols.
pub open spec fn holds_protocols(name: Seq<char>) -> bool {
    alike(name, "protocols"@)
}

/// Whether a name is that of a rule file.
pub open spec fn is_yaml(name: Seq<char>) -> bool {
    extension(name) matches Some(e) && (alike(e, "yaml"@) || alike(e, "yml"@))
}

/// The rule files among entries, at any depth, as far as they lie in a directory with
/// protocols.
pub open spec fn rule_paths(
    s: Seq<DirEntry>,
    prefix: Seq<Seq<char>>,
    in_protocols: bool,
) -> Seq<Seq<Seq<char>>>
    decreases s,
{
    if s.len() == 0 {
        Seq::<Seq<Seq<char>>>::empty()
    } else {
        let e = s.last();
        let path = prefix.push(e.name@);
        rule_paths(s.drop_last(), prefix, in_protocols) + match e.content {
            DirContent::Dir(inner) => rule_paths(
                inner@,
                path,
                in_protocols || holds_protocols(e.name@),
            ),
            DirContent::File => if in_protocols && is_yaml(e.name@) {
                seq![path]
            } else {
                Seq::<Seq<Seq<char>>>::empty()
            },
        }
    }
}

/// The paths of a list of files.
pub open spec fn paths_view(v: Seq<RuleFile>) -> Seq<Seq<Seq<char>>> {
    v.map_values(|f: RuleFile| texts(f.path@))
}

/// Whether a path stands before another: by the first name in which they differ, a shorter
/// one before the longer ones that begin with it.
pub open spec fn path_before(a: Seq<Seq<char>>, b: Seq<Seq<char>>) -> bool
    decreases a.len(),
{
    if b.len() == 0 {
        false
    } else if a.len() == 0 {
        true
    } else if a[0] == b[0] {
        path_before(a.skip(1), b.skip(1))
    } else {
        precedes(a[0], b[0])
    }
}

fn is_path_before(a: &Vec<String>, b: &Vec<String>) -> (r: bool)
    ensures
        r == path_before(texts(a@), texts(b@)),
{
    let ghost x = texts(a@);
    let ghost y = texts(b@);
    let mut i: usize = 0;
    assert(x.skip(0) =~= x);
    assert(y.skip(0) =~= y);
    while i < a.len() && i < b.len()
        invariant
            i <= a.len(),
            i <= b.len(),
            x == texts(a@),
            y == texts(b@),
            path_before(x, y) == path_before(x.skip(i as int), y.skip(i as int)),
        decreases a.len() - i,
    {
        assert(x.skip(i as int)[0] == a@[i as int]@);
        assert(y.skip(i as int)[0] == b@[i as int]@);
        if !same(a[i].as_str(), b[i].as_str()) {
            return comes_before(a[i].as_str(), b[i].as_str());
        }
        assert(x.skip(i as int).skip(1) =~= x.skip(i + 1));
        assert(y.skip(i as int).skip(1) =~= y.skip(i + 1));
        i = i + 1;
    }
    assert(x.skip(i as int).len() == a.len() - i);
    assert(y.skip(i as int).len() == b.len() - i);
    i < b.len()
}

impl Ranked for RuleFile {
    open spec fn outranks(&self, other: &Self) -> bool {
        path_before(texts(self.path@), texts(other.path@))
    }

    fn is_before(&self, other: &Self) -> (r: bool) {
        is_path_before(&self.path, &other.path)
    }
}

fn collect_rule_files(
    entries: &Vec<DirEntry>,
    prefix: &Vec<String>,
    in_protocol_tree: bool,
    files: &mut Vec<RuleFile>,
)
    ensures
        paths_view(final(files)@) == paths_view(old(files)@) + rule_paths(
            entries@,
            texts(prefix@),
            in_protocol_tree,
        ),
    decreases entries,
{
    let ghost all = entries@;
    let ghost start = paths_view(files@);
    let ghost names = texts(prefix@);
    let mut i: usize = 0;
    assert(all.take(0) =~= Seq::<DirEntry>::empty());
    assert(start + rule_paths(all.take(0), names, in_protocol_tree) =~= start);
    while i < entries.len()
        invariant
            i <= entries.len(),
            all == entries@,
            names == texts(prefix@),
            paths_view(files@) == start + rule_paths(all.take(i as int), names, in_protocol_tree),
        decreases entries.len() - i,
    {
        let entry: &DirEntry = &entries[i];
        let ghost before = paths_view(files@);
        let ghost sofar = rule_paths(all.take(i as int), names, in_protocol_tree);
        proof {
            assert(all.take(i + 1).drop_last() =~= all.take(i as int));
            assert(all.take(i + 1).last() == *entry);
        }
        let mut path: Vec<String> = copy_texts(prefix);
        path.push(entry.name.clone());
        assert(texts(path@) =~= names.push(entry.name@));
        match &entry.content {
            DirContent::Dir(inner) => {
                let inside: bool = in_protocol_tree || same_ignoring_case(
                    entry.name.as_str(),
                    "protocols",
                );
                assert(decreases_to!(entries => entries@[i as int]));
                collect_rule_files(inner, &path, inside, files);
                assert(before + rule_paths(inner@, names.push(entry.name@), inside) =~= start + (
                sofar + rule_paths(inner@, names.push(entry.name@), inside)));
            },
            DirContent::File => {
                let yaml: bool = match file_extension(entry.name.as_str()) {
                    Some(e) => same_ignoring_case(e.as_str(), "yaml") || same_ignoring_case(
                        e.as_str(),
                        "yml",
                    ),
                    None => false,
                };
                if in_protocol_tree && yaml {
                    let ghost listed = files@;
                    files.push(RuleFile { path });
                    assert(paths_view(files@) =~= paths_view(listed).push(
                        names.push(entry.name@),
                    ));
                    assert(before.push(names.push(entry.name@)) =~= start + (sofar + seq![
                        names.push(entry.name@),
                    ]));
                } else {
                    assert(sofar + Seq::<Seq<Seq<char>>>::empty() =~= sofar);
                }
            },
        }
        i = i + 1;
    }
    assert(all.take(i as int) =~= all);
}

/// The rule files under a root, in the order of their paths; none where there is no root.
pub fn discover_rule_files(root: Option<&Vec<DirEntry>>) -> (r: Vec<RuleFile>)
    ensures
        exists|found: Seq<RuleFile>|
            r@ == #[trigger] arranged(found) && paths_view(found) == (match root {
                Some(entries) => rule_paths(entries@, Seq::<Seq<char>>::empty(), false),
                None => Seq::<Seq<Seq<char>>>::empty(),
            }),
{
    let mut files: Vec<RuleFile> = Vec::new();
    assert(paths_view(files@) =~= Seq::<Seq<Seq<char>>>::empty());
    match root {
        Some(entries) => {
            let prefix: Vec<String> = Vec::new();
            assert(texts(prefix@) =~= Seq::<Seq<char>>::empty());
            collect_rule_files(entries, &prefix, false, &mut files);
            assert(paths_view(files@) =~= rule_paths(
                entries@,
                Seq::<Seq<char>>::empty(),
                false,
            ));
        },
        None => {},
    }
    let ghost found = files@;
    let r: Vec<RuleFile> = arrange(files);
    assert(r@ == arranged(found));
    r
}

// ---------------------------------------------------------------------------
// Chains
// ---------------------------------------------------------------------------

/// What lies in the directory of a chain.
#[derive(Clone, Copy, Debug, PartialEq, Eq, Structural)]
pub struct ChainDir {
    pub is_dir: bool,
    pub has_chain_config: bool,
    pub has_protocol_config: bool,
}

/// Whether a chain is loaded: it has a directory with both of its configurations.
pub open spec fn is_loaded(d: ChainDir) -> bool {
    d.is_dir && d.has_chain_config && d.has_protocol_config
}

/// The places of the first `n` chains that are loaded.
pub open spec fn loaded_places(s: Seq<ChainDir>, n: nat) -> Seq<int>
    decreases n,
{
    if n == 0 {
        Seq::<int>::empty()
    } else if is_loaded(s[n - 1]) {
        loaded_places(s, (n - 1) as nat).push(n - 1)
    } else {
        loaded_places(s, (n - 1) as nat)
    }
}

/// Places as integers.
pub open spec fn places_view(v: Seq<usize>) -> Seq<int> {
    v.map_values(|i: usize| i as int)
}

/// The places of the chains that are loaded.
pub fn chains_to_load(dirs: &Vec<ChainDir>) -> (r: Vec<usize>)
    ensures
        places_view(r@) == loaded_places(dirs@, dirs@.len()),
{
    let mut r: Vec<usize> = Vec::new();
    let mut i: usize = 0;
    assert(places_view(r@) =~= Seq::<int>::empty());
    while i < dirs.len()
        invariant
            i <= dirs.len(),
            places_view(r@) == loaded_places(dirs@, i as nat),
        decreases dirs.len() - i,
    {
        let d: ChainDir = dirs[i];
        if d.is_dir && d.has_chain_config && d.has_protocol_config {
            let ghost before = r@;
            r.push(i);
            assert(places_view(r@) =~= places_view(before).push(i as int));
        }
        i = i + 1;
    }
    r
}

/// A chain that was loaded, and its place among those that were.
#[derive(Debug)]
pub struct LoadedChain {
    pub chain_slug: String,
    pub place: usize,
}

impl Ranked for LoadedChain {
    open spec fn outranks(&self, other: &Self) -> bool {
        precedes(self.chain_slug@, other.chain_slug@)
    }

    fn is_before(&self, other: &Self) -> (r: bool) {
        comes_before(self.chain_slug.as_str(), other.chain_slug.as_str())
    }
}

/// Puts the chains that were loaded in the order of their slugs.
pub fn order_chains(chains: Vec<LoadedChain>) -> (r: Vec<LoadedChain>)
    ensures
        r@ == arranged(chains@),
{
    arrange(chains)
}

// ---------------------------------------------------------------------------
// Roots and the fallback
// ---------------------------------------------------------------------------

/// Where the rules may lie, in the order in which the places are tried.
pub open spec fn root_places(explicit: Option<Seq<char>>) -> Seq<Seq<char>> {
    let usual = seq![
        "../defi-surv-rules"@,
        "../../defi-surv-rules"@,
        "../../../defi-surv-rules"@,
    ];
    match explicit {
        Some(s) => seq![s] + usual,
        None => usual,
    }
}

/// Where the rules may lie, in the order in which the places are tried.
pub fn rules_root_candidates(explicit: Option<&str>) -> (r: Vec<String>)
    ensures
        texts(r@) == root_places(str_option(explicit)),
{
    let mut r: Vec<String> = Vec::new();
    match explicit {
        Some(s) => {
            r.push(s.to_owned());
        },
        None => {},
    }
    r.push("../defi-surv-rules".to_owned());
    r.push("../../defi-surv-rules".to_owned());
    r.push("../../../defi-surv-rules".to_owned());
    assert(texts(r@) =~= root_places(str_option(explicit)));
    r
}

/// The place of the first candidate that exists, the number of candidates where none does.
pub open spec fn first_existing(s: Seq<bool>) -> int
    decreases s.len(),
{
    if s.len() == 0 || s[0] {
        0
    } else {
        1 + first_existing(s.skip(1))
    }
}

/// Which of the candidates the rules are taken from: the first that exists.
pub fn find_rules_repo_root(exists_there: &Vec<bool>) -> (r: Option<usize>)
    ensures
        match r {
            Some(i) => i < exists_there@.len() && i == first_existing(exists_there@),
            None => first_existing(exists_there@) == exists_there@.len(),
        },
{
    let mut i: usize = 0;
    assert(exists_there@.skip(0) =~= exists_there@);
    while i < exists_there.len()
        invariant
            i <= exists_there.len(),
            first_existing(exists_there@) == i + first_existing(exists_there@.skip(i as int)),
        decreases exists_there.len() - i,
    {
        if exists_there[i] {
            return Some(i);
        }
        assert(exists_there@.skip(i as int).skip(1) =~= exists_there@.skip(i + 1));
        i = i + 1;
    }
    None
}

/// A rule of the worker.
#[derive(Debug)]
pub struct RuleDefinition {
    pub id: String,
    pub version: u32,
    pub enabled: bool,
    pub chain: String,
    pub protocol: String,
    pub signals: Vec<String>,
    pub conditions: Vec<(String, Double)>,
    pub window_ms: u64,
    pub severity: String,
    pub cooldown_sec: u64,
    pub routing_tags: Vec<String>,
}

/// Whether a rule is the one that is used where no rule files are found.
pub open spec fn is_fallback(r: RuleDefinition) -> bool {
    &&& r.id@ == "oracle-divergence-default"@
    &&& r.version == 1
    &&& r.enabled
    &&& r.chain@ == "ethereum"@
    &&& r.protocol@ == "aave-v3"@
    &&& texts(r.signals@) == seq!["oracle_divergence"@]
    &&& numbers_view(r.conditions@) == seq![
        ("divergence_pct_gt"@, double(FALLBACK_DIVERGENCE_BITS)),
    ]
    &&& r.window_ms == 60000
    &&& r.severity@ == "high"@
    &&& r.cooldown_sec == 300
    &&& texts(r.routing_tags@) == seq!["mvp"@]
}

/// The rule that is used where no rule files are found.
pub fn fallback_rule() -> (r: RuleDefinition)
    ensures
        is_fallback(r),
{
    let mut conditions: Vec<(String, Double)> = Vec::new();
    conditions.push(("divergence_pct_gt".to_owned(), Double { bits: FALLBACK_DIVERGENCE_BITS }));
    assert(numbers_view(conditions@) =~= seq![
        ("divergence_pct_gt"@, double(FALLBACK_DIVERGENCE_BITS)),
    ]);
    RuleDefinition {
        id: "oracle-divergence-default".to_owned(),
        version: 1,
        enabled: true,
        chain: "ethereum".to_owned(),
        protocol: "aave-v3".to_owned(),
        signals: one_text("oracle_divergence".to_owned()),
        conditions,
        window_ms: 60000,
        severity: "high".to_owned(),
        cooldown_sec: 300,
        routing_tags: one_text("mvp".to_owned()),
    }
}

/// Where the worker takes its rules from.
#[derive(Debug)]
pub enum RuleSource {
    Files(Vec<RuleFile>),
    Fallback(RuleDefinition),
}

/// Where the worker takes its rules from: the files that were found, or else the fallback.
pub fn load_rule_engine(files: Vec<RuleFile>) -> (r: RuleSource)
    ensures
        files@.len() > 0 ==> r == RuleSource::Files(files),
        files@.len() == 0 ==> r is Fallback && is_fallback(r->Fallback_0),
{
    if files.len() > 0 {
        RuleSource::Files(files)
    } else {
        RuleSource::Fallback(fallback_rule())
    }
}

// ---------------------------------------------------------------------------
// Laws
// ---------------------------------------------------------------------------

/// Every rule file lies in a directory with protocols and has the name of one.
pub proof fn law_rule_files_lie_in_protocols(
    s: Seq<DirEntry>,
    prefix: Seq<Seq<char>>,
    in_protocols: bool,
    i: int,
)
    requires
        0 <= i < rule_paths(s, prefix, in_protocols).len(),
    ensures
        ({
            let p = rule_paths(s, prefix, in_protocols)[i];
            &&& p.len() > prefix.len()
            &&& p.take(prefix.len() as int) == prefix
            &&& is_yaml(p.last())
            &&& in_protocols || exists|k: int|
                prefix.len() <= k < p.len() - 1 && holds_protocols(#[trigger] p[k])
        }),
    decreases s,
{
    let e = s.last();
    let front = rule_paths(s.drop_last(), prefix, in_protocols);
    let path = prefix.push(e.name@);
    let p = rule_paths(s, prefix, in_protocols)[i];
    if i < front.len() {
        law_rule_files_lie_in_protocols(s.drop_last(), prefix, in_protocols, i);
    } else {
        match e.content {
            DirContent::Dir(inner) => {
                let inside = in_protocols || holds_protocols(e.name@);
                law_rule_files_lie_in_protocols(inner@, path, inside, i - front.len());
                assert(p == rule_paths(inner@, path, inside)[i - front.len()]);
                assert(p.take(prefix.len() as int) =~= p.take(path.len() as int).take(
                    prefix.len() as int,
                ));
                assert(path.take(prefix.len() as int) =~= prefix);
                assert(p[prefix.len() as int] == p.take(path.len() as int)[prefix.len() as int]);
                if !in_protocols && holds_protocols(e.name@) {
                    assert(holds_protocols(p[prefix.len() as int]));
                }
            },
            DirContent::File => {
                assert(p.take(prefix.len() as int) =~= prefix);
            },
        }
    }
}

proof fn lemma_precedes_is_an_order()
    ensures
        forall|a: Seq<char>, b: Seq<char>| #[trigger] precedes(a, b) ==> !precedes(b, a),
        forall|a: Seq<char>, b: Seq<char>, c: Seq<char>|
            !(#[trigger] precedes(b, a)) && !(#[trigger] precedes(c, b)) ==> !precedes(c, a),
{
    assert forall|a: Seq<char>, b: Seq<char>| #[trigger] precedes(a, b) implies !precedes(
        b,
        a,
    ) by {
        lemma_precedes_one_way(a, b);
    }
    assert forall|a: Seq<char>, b: Seq<char>, c: Seq<char>|
        !(#[trigger] precedes(b, a)) && !(#[trigger] precedes(c, b)) implies !precedes(c, a) by {
        lemma_precedes_chain(a, b, c);
    }
}

proof fn lemma_precedes_one_way(a: Seq<char>, b: Seq<char>)
    requires
        precedes(a, b),
    ensures
        !precedes(b, a),
    decreases a.len(),
{
    if a.len() > 0 && b.len() > 0 && a[0] == b[0] {
        lemma_precedes_one_way(a.skip(1), b.skip(1));
    }
}

proof fn lemma_codes_differ(x: char, y: char)
    ensures
        x != y ==> x as u32 != y as u32,
{
}

proof fn lemma_precedes_chain(a: Seq<char>, b: Seq<char>, c: Seq<char>)
    requires
        !precedes(b, a),
        !precedes(c, b),
    ensures
        !precedes(c, a),
    decreases a.len(),
{
    if a.len() > 0 && b.len() > 0 && c.len() > 0 {
        lemma_codes_differ(a[0], b[0]);
        lemma_codes_differ(b[0], c[0]);
        if a[0] == b[0] && b[0] == c[0] {
            lemma_precedes_chain(a.skip(1), b.skip(1), c.skip(1));
        }
    }
}

/// The chains that were loaded are put in the order of their slugs, and none is lost.
pub proof fn law_chains_are_in_order(s: Seq<LoadedChain>)
    ensures
        in_order(arranged(s)),
        arranged(s).len() == s.len(),
        forall|c: LoadedChain| #[trigger] arranged(s).contains(c) <==> s.contains(c),
{
    lemma_precedes_is_an_order();
    lemma_arranged(s, |c: LoadedChain| true);
    lemma_arranged_items(s);
}

proof fn lemma_precedes_or_same(a: Seq<char>, b: Seq<char>)
    requires
        !precedes(a, b),
        !precedes(b, a),
    ensures
        a == b,
    decreases a.len(),
{
    if a.len() > 0 && b.len() > 0 {
        lemma_codes_differ(a[0], b[0]);
        lemma_precedes_or_same(a.skip(1), b.skip(1));
        assert forall|i: int| 0 <= i < a.len() implies a[i] == b[i] by {
            if i > 0 {
                assert(a.skip(1)[i - 1] == b.skip(1)[i - 1]);
            }
        }
        assert(a.skip(1).len() == b.skip(1).len());
        assert(a =~= b);
    } else {
        assert(a =~= b);
    }
}

proof fn lemma_path_one_way(a: Seq<Seq<char>>, b: Seq<Seq<char>>)
    requires
        path_before(a, b),
    ensures
        !path_before(b, a),
    decreases a.len(),
{
    if a.len() > 0 && b.len() > 0 {
        if a[0] == b[0] {
            lemma_path_one_way(a.skip(1), b.skip(1));
        } else {
            lemma_precedes_one_way(a[0], b[0]);
        }
    }
}

proof fn lemma_path_chain(a: Seq<Seq<char>>, b: Seq<Seq<char>>, c: Seq<Seq<char>>)
    requires
        !path_before(b, a),
        !path_before(c, b),
    ensures
        !path_before(c, a),
    decreases a.len(),
{
    if a.len() > 0 && b.len() > 0 && c.len() > 0 {
        if a[0] == b[0] && b[0] == c[0] {
            lemma_path_chain(a.skip(1), b.skip(1), c.skip(1));
        } else if a[0] == c[0] {
            lemma_precedes_or_same(a[0], b[0]);
        } else {
            if a[0] == b[0] || b[0] == c[0] {
            } else {
                lemma_precedes_chain(a[0], b[0], c[0]);
            }
        }
    }
}

/// The rule files that were found are put in the order of their paths, and none is lost.
pub proof fn law_rule_files_are_in_order(s: Seq<RuleFile>)
    ensures
        in_order(arranged(s)),
        arranged(s).len() == s.len(),
        forall|f: RuleFile| #[trigger] arranged(s).contains(f) <==> s.contains(f),
{
    assert forall|a: RuleFile, b: RuleFile| #[trigger] a.outranks(&b) implies !b.outranks(&a) by {
        lemma_path_one_way(texts(a.path@), texts(b.path@));
    }
    assert forall|a: RuleFile, b: RuleFile, c: RuleFile|
        !(#[trigger] b.outranks(&a)) && !(#[trigger] c.outranks(&b)) implies !c.outranks(&a) by {
        lemma_path_chain(texts(a.path@), texts(b.path@), texts(c.path@));
    }
    lemma_arranged(s, |f: RuleFile| true);
    lemma_arranged_items(s);
}

/// The extension of a name is what stands behind its last dot, which does not come first.
pub proof fn law_extensions_follow_the_last_dot(stem: Seq<char>, e: Seq<char>)
    requires
        !e.contains('.'),
    ensures
        stem.len() > 0 ==> extension(stem.push('.') + e) == Some(e),
        stem.len() == 0 ==> extension(stem.push('.') + e) is None,
        extension(e) is None,
{
    lemma_last_dot(stem.push('.'), e);
    lemma_last_dot(Seq::<char>::empty(), e);
    assert(Seq::<char>::empty() + e =~= e);
    let all = stem.push('.') + e;
    assert(stem.push('.').last() == '.');
    assert(all.skip((stem.len() + 1) as int) =~= e);
}

proof fn lemma_last_dot(front: Seq<char>, e: Seq<char>)
    requires
        !e.contains('.'),
    ensures
        last_dot(front + e) == last_dot(front),
    decreases e.len(),
{
    if e.len() > 0 {
        assert(e[e.len() - 1] == e.last());
        let rest = e.drop_last();
        assert forall|i: int| 0 <= i < rest.len() implies rest[i] != '.' by {
            assert(e[i] == rest[i]);
        }
        lemma_last_dot(front, rest);
        assert((front + e).drop_last() =~= front + rest);
        assert((front + e).last() == e.last());
    } else {
        assert(front + e =~= front);
    }
}

/// No rule file is missed: those of a directory are found with it, below a directory with
/// protocols every file with the extension of one.
pub proof fn law_no_rule_file_is_missed(
    s: Seq<DirEntry>,
    prefix: Seq<Seq<char>>,
    in_protocols: bool,
    i: int,
    path: Seq<Seq<char>>,
)
    requires
        0 <= i < s.len(),
    ensures
        s[i].content is File && in_protocols && is_yaml(s[i].name@) ==> rule_paths(
            s,
            prefix,
            in_protocols,
        ).contains(prefix.push(s[i].name@)),
        s[i].content matches DirContent::Dir(inner) ==> rule_paths(
            inner@,
            prefix.push(s[i].name@),
            in_protocols || crate::text::lowered(s[i].name@) == crate::text::lowered("protocols"@),
        ).contains(path) ==> rule_paths(s, prefix, in_protocols).contains(path),
    decreases s.len(),
{
    let before = rule_paths(s.drop_last(), prefix, in_protocols);
    let all = rule_paths(s, prefix, in_protocols);
    if i == s.len() - 1 {
        assert(s[i] == s.last());
        match s[i].content {
            DirContent::Dir(inner) => {
                let found = rule_paths(
                    inner@,
                    prefix.push(s[i].name@),
                    in_protocols || holds_protocols(s[i].name@),
                );
                if found.contains(path) {
                    let k = choose|k: int| 0 <= k < found.len() && found[k] == path;
                    assert(all[before.len() + k] == path);
                }
            },
            DirContent::File => {
                if in_protocols && is_yaml(s[i].name@) {
                    assert(all[before.len() as int] == prefix.push(s[i].name@));
                }
            },
        }
    } else {
        assert(s.drop_last()[i] == s[i]);
        law_no_rule_file_is_missed(s.drop_last(), prefix, in_protocols, i, path);
        let own = prefix.push(s[i].name@);
        if before.contains(own) {
            let k = choose|k: int| 0 <= k < before.len() && before[k] == own;
            assert(all[k] == own);
        }
        if before.contains(path) {
            let k = choose|k: int| 0 <= k < before.len() && before[k] == path;
            assert(all[k] == path);
        }
    }
}

/// The chains that are loaded are those whose directory has both configurations, all of them.
pub proof fn law_complete_chains_are_loaded(s: Seq<ChainDir>, n: nat, i: int)
    requires
        n <= s.len(),
    ensures
        loaded_places(s, n).contains(i) <==> 0 <= i < n && s[i].is_dir && s[i].has_chain_config
            && s[i].has_protocol_config,
    decreases n,
{
    if n > 0 {
        law_complete_chains_are_loaded(s, (n - 1) as nat, i);
        let before = loaded_places(s, (n - 1) as nat);
        let after = loaded_places(s, n);
        if before.contains(i) {
            let k = choose|k: int| 0 <= k < before.len() && before[k] == i;
            assert(after[k] == i);
        }
        if is_loaded(s[n - 1]) {
            assert(after[before.len() as int] == n - 1);
        }
        if after.contains(i) && !before.contains(i) {
            let k = choose|k: int| 0 <= k < after.len() && after[k] == i;
            assert(k == before.len());
        }
    }
}

/// The first place that exists is taken: it does, and none before it.
pub proof fn law_the_first_existing_place_is_taken(s: Seq<bool>)
    ensures
        0 <= first_existing(s) <= s.len(),
        first_existing(s) < s.len() ==> s[first_existing(s)],
        forall|i: int| 0 <= i < first_existing(s) ==> !#[trigger] s[i],
    decreases s.len(),
{
    if s.len() > 0 && !s[0] {
        law_the_first_existing_place_is_taken(s.skip(1));
        assert forall|i: int| 0 <= i < first_existing(s) implies !#[trigger] s[i] by {
            if i > 0 {
                assert(s.skip(1)[i - 1] == s[i]);
            }
        }
    }
}

/// A place that is named is tried before the usual ones.
pub proof fn law_the_named_place_is_tried_first(named: Seq<char>)
    ensures
        root_places(Some(named))[0] == named,
        root_places(Some(named)).skip(1) == root_places(None),
{
    assert(root_places(Some(named)).skip(1) =~= root_places(None));
}

/// Chains are ordered by their slugs, and of two paths in one directory the shorter one, or the
/// one whose next name comes first, stands before the other.
pub proof fn law_names_decide_the_order(
    c: LoadedChain,
    d: LoadedChain,
    dir: Seq<Seq<char>>,
    a: Seq<char>,
    b: Seq<char>,
)
    ensures
        c.outranks(&d) <==> precedes(c.chain_slug@, d.chain_slug@),
        path_before(dir, dir.push(a)),
        !path_before(dir.push(a), dir),
        a != b ==> path_before(dir.push(a), dir.push(b)) == precedes(a, b),
        !path_before(dir, dir),
    decreases dir.len(),
{
    if dir.len() > 0 {
        let rest = dir.skip(1);
        law_names_decide_the_order(c, d, rest, a, b);
        assert(dir.push(a).skip(1) =~= rest.push(a));
        assert(dir.push(b).skip(1) =~= rest.push(b));
    }
}

} // verus!
