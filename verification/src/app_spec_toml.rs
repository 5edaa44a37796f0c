//! The deployment configuration of a WASM application as TOML: the lines
//! written to `application-spec.toml` next to the saved module, and the
//! checks made before anything is saved.

use vstd::prelude::*;

use crate::text::{concat, joined, owned, signed_decimal, signed_decimal_of, string_views};

verus! {

/// How a supervisor restarts its children.
#[derive(Debug, Clone, Copy, PartialEq, Eq, Structural)]
pub enum SupervisionStrategy {
    OneForOne,
    OneForAll,
    RestForOne,
}

/// Whether a child is a worker or a nested supervisor.
#[derive(Debug, Clone, Copy, PartialEq, Eq, Structural)]
pub enum ChildType {
    Worker,
    Supervisor,
}

/// When a child is restarted.
#[derive(Debug, Clone, Copy, PartialEq, Eq, Structural)]
pub enum RestartPolicy {
    Permanent,
    Transient,
    Temporary,
}

/// A facet attached to a child.
#[derive(Debug)]
pub struct FacetSpec {
    pub facet_type: String,
    pub priority: i32,
    pub config: Vec<(String, String)>,
}

/// A supervised child.
#[derive(Debug)]
pub struct ChildSpec {
    pub id: String,
    pub child_type: ChildType,
    pub restart: RestartPolicy,
    pub shutdown_timeout_seconds: Option<i64>,
    pub args: Vec<(String, String)>,
    pub behavior_kind: Option<String>,
    pub facets: Vec<FacetSpec>,
}

/// The application's supervisor.
#[derive(Debug)]
pub struct SupervisorSpec {
    pub strategy: SupervisionStrategy,
    pub max_restarts: u32,
    pub max_restart_window_seconds: Option<i64>,
    pub children: Vec<ChildSpec>,
}

/// The parts of an application specification kept in its deployment
/// configuration.
#[derive(Debug)]
pub struct ApplicationSpec {
    pub version: String,
    pub namespace: String,
    pub seed_nodes: Vec<String>,
    pub supervisor: Option<SupervisorSpec>,
}

// ============================================================================
// The TOML text
// ============================================================================

/// `s` with every double quote preceded by a backslash.
pub open spec fn escaped(s: Seq<char>) -> Seq<char>
    decreases s.len(),
{
    if s.len() == 0 {
        Seq::empty()
    } else {
        escaped(s.drop_last()) + if s.last() == '"' { seq!['\\', '"'] } else { seq![s.last()] }
    }
}

/// `prefix` followed by `value` in double quotes, unescaped.
pub open spec fn field(prefix: Seq<char>, value: Seq<char>) -> Seq<char> {
    prefix + "\""@ + value + "\""@
}

/// A quoted TOML string with escaped quotes.
pub open spec fn quoted(s: Seq<char>) -> Seq<char> {
    "\""@ + escaped(s) + "\""@
}

/// `key = value` pairs with quoted values.
pub open spec fn pair_items(pairs: Seq<(String, String)>) -> Seq<Seq<char>> {
    pairs.map_values(|p: (String, String)| p.0@ + " = "@ + quoted(p.1@))
}

/// An inline table of `key = "value"` pairs.
pub open spec fn inline_table(pairs: Seq<(String, String)>) -> Seq<char> {
    "{ "@ + joined(pair_items(pairs), ", "@) + " }"@
}

/// The name of a supervision strategy.
pub open spec fn strategy_name(s: SupervisionStrategy) -> Seq<char> {
    match s {
        SupervisionStrategy::OneForOne => "one_for_one"@,
        SupervisionStrategy::OneForAll => "one_for_all"@,
        SupervisionStrategy::RestForOne => "rest_for_one"@,
    }
}

/// The name of a child type.
pub open spec fn child_type_name(t: ChildType) -> Seq<char> {
    match t {
        ChildType::Worker => "worker"@,
        ChildType::Supervisor => "supervisor"@,
    }
}

/// The name of a restart policy.
pub open spec fn restart_name(r: RestartPolicy) -> Seq<char> {
    match r {
        RestartPolicy::Permanent => "permanent"@,
        RestartPolicy::Transient => "transient"@,
        RestartPolicy::Temporary => "temporary"@,
    }
}

/// The line of one facet: `  { type = "t", priority = N, config = {...} },`.
pub open spec fn facet_line(f: FacetSpec) -> Seq<char> {
    let config = if f.config@.len() == 0 { "config = {}"@ } else { "config = "@ + inline_table(f.config@) };
    "  { "@ + joined(seq![field("type = "@, f.facet_type@), "priority = "@ + signed_decimal_of(f.priority as int), config], ", "@)
        + " },"@
}

/// The lines of a child's facets: an array of inline tables, when it has any.
pub open spec fn facet_lines(fs: Seq<FacetSpec>) -> Seq<Seq<char>> {
    if fs.len() == 0 {
        Seq::empty()
    } else {
        seq!["facets = ["@] + fs.map_values(|f: FacetSpec| facet_line(f)) + seq!["]"@]
    }
}

/// The timeout line of a child, when it has one.
pub open spec fn timeout_part(c: ChildSpec) -> Seq<Seq<char>> {
    match c.shutdown_timeout_seconds {
        Some(t) => seq!["shutdown_timeout_seconds = "@ + signed_decimal_of(t as int)],
        None => Seq::empty(),
    }
}

/// The arguments line of a child, when it has arguments.
pub open spec fn args_part(c: ChildSpec) -> Seq<Seq<char>> {
    if c.args@.len() == 0 { Seq::empty() } else { seq!["args = "@ + inline_table(c.args@)] }
}

/// The behavior line of a child, when it names a non-empty behavior kind.
pub open spec fn behavior_part(c: ChildSpec) -> Seq<Seq<char>> {
    match c.behavior_kind {
        Some(b) => if b@.len() > 0 { seq!["behavior_kind = "@ + quoted(b@)] } else { Seq::empty() },
        None => Seq::empty(),
    }
}

/// The first lines of a child: its header, ID, type and restart policy.
pub open spec fn child_head(c: ChildSpec) -> Seq<Seq<char>> {
    seq![
        "\n[[supervisor.children]]"@,
        field("id = "@, c.id@),
        field("type = "@, child_type_name(c.child_type)),
        field("restart = "@, restart_name(c.restart)),
    ]
}

/// The lines of one child.
pub open spec fn child_lines(c: ChildSpec) -> Seq<Seq<char>> {
    child_head(c) + timeout_part(c) + args_part(c) + behavior_part(c) + facet_lines(c.facets@)
}

/// The lines of a list of children, one after the other.
pub open spec fn children_lines(cs: Seq<ChildSpec>) -> Seq<Seq<char>>
    decreases cs.len(),
{
    if cs.len() == 0 {
        Seq::empty()
    } else {
        children_lines(cs.drop_last()) + child_lines(cs.last())
    }
}

/// The window line of a supervisor, when it has one.
pub open spec fn window_part(s: SupervisorSpec) -> Seq<Seq<char>> {
    match s.max_restart_window_seconds {
        Some(w) => seq!["max_restart_window_seconds = "@ + signed_decimal_of(w as int)],
        None => Seq::empty(),
    }
}

/// The first lines of the supervisor section: header, strategy and restart limit.
pub open spec fn supervisor_head(s: SupervisorSpec) -> Seq<Seq<char>> {
    seq![
        "\n[supervisor]"@,
        field("strategy = "@, strategy_name(s.strategy)),
        "max_restarts = "@ + signed_decimal_of(s.max_restarts as int),
    ]
}

/// The lines of the supervisor section.
pub open spec fn supervisor_lines(s: SupervisorSpec) -> Seq<Seq<char>> {
    supervisor_head(s) + window_part(s) + children_lines(s.children@)
}

/// The namespace line, when the namespace is set.
pub open spec fn namespace_part(a: ApplicationSpec) -> Seq<Seq<char>> {
    if a.namespace@.len() > 0 { seq![field("namespace = "@, a.namespace@)] } else { Seq::empty() }
}

/// The seed-nodes line, when there are seed nodes.
pub open spec fn seeds_part(a: ApplicationSpec) -> Seq<Seq<char>> {
    if a.seed_nodes@.len() > 0 {
        seq!["seed_nodes = ["@ + joined(string_views(a.seed_nodes@).map_values(|s: Seq<char>| quoted(s)), ", "@) + "]"@]
    } else {
        Seq::empty()
    }
}

/// The supervisor section, when there is a supervisor.
pub open spec fn supervisor_part(a: ApplicationSpec) -> Seq<Seq<char>> {
    match a.supervisor {
        Some(s) => supervisor_lines(s),
        None => Seq::empty(),
    }
}

/// The lines of an application's deployment configuration.
pub open spec fn application_lines(a: ApplicationSpec) -> Seq<Seq<char>> {
    seq![field("version = "@, a.version@)] + namespace_part(a) + seeds_part(a) + supervisor_part(a)
}

/// The deployment configuration of an application as TOML text.
pub open spec fn application_toml(a: ApplicationSpec) -> Seq<char> {
    joined(application_lines(a), "\n"@)
}

// ============================================================================
// Building the text
// ============================================================================

/// Escaping distributes over concatenation.
proof fn lemma_escaped_append(a: Seq<char>, b: Seq<char>)
    ensures
        escaped(a + b) == escaped(a) + escaped(b),
    decreases b.len(),
{
    if b.len() == 0 {
        assert(a + b =~= a);
        assert(escaped(a) + escaped(b) =~= escaped(a));
    } else {
        lemma_escaped_append(a, b.drop_last());
        assert((a + b).drop_last() =~= a + b.drop_last());
        assert((a + b).last() == b.last());
    }
}

/// `s` with every double quote preceded by a backslash.
pub fn escape_quotes(s: &str) -> (r: String)
    ensures
        r@ == escaped(s@),
{
    let n = s.unicode_len();
    let mut out = String::new();
    let mut i: usize = 0;
    assert(s@.take(0) =~= Seq::<char>::empty());
    while i < n
        invariant
            n == s@.len(),
            i <= n,
            out@ == escaped(s@.take(i as int)),
        decreases n - i,
    {
        let c = s.get_char(i);
        proof {
            assert(s@.take(i + 1).drop_last() =~= s@.take(i as int));
            assert(s@.take(i + 1).last() == c);
        }
        if c == '"' {
            proof {
                reveal_strlit("\\\"");
            }
            out.append("\\\"");
        } else {
            out.append(s.substring_char(i, i + 1));
            proof {
                assert(s@.subrange(i as int, i + 1) =~= seq![c]);
            }
        }
        i = i + 1;
    }
    assert(s@.take(n as int) =~= s@);
    out
}

/// A quoted TOML string with escaped quotes.
fn quote(s: &str) -> (r: String)
    ensures
        r@ == quoted(s@),
{
    let mut r = owned("\"");
    r.append(escape_quotes(s).as_str());
    r.append("\"");
    r
}

/// An inline table of `key = "value"` pairs.
fn inline_table_text(pairs: &Vec<(String, String)>) -> (r: String)
    ensures
        r@ == inline_table(pairs@),
{
    let mut items: Vec<String> = Vec::new();
    let mut i: usize = 0;
    while i < pairs.len()
        invariant
            i <= pairs@.len(),
            string_views(items@) == pair_items(pairs@.take(i as int)),
        decreases pairs.len() - i,
    {
        let mut item = concat(pairs[i].0.as_str(), " = ");
        item.append(quote(pairs[i].1.as_str()).as_str());
        let ghost before = items@;
        items.push(item);
        proof {
            assert(string_views(items@) =~= string_views(before).push(item@));
            assert(pair_items(pairs@.take(i + 1)) =~= pair_items(pairs@.take(i as int)).push(item@));
        }
        i = i + 1;
    }
    assert(pairs@.take(pairs@.len() as int) =~= pairs@);
    let mut r = owned("{ ");
    r.append(crate::text::join(&items, ", ").as_str());
    r.append(" }");
    r
}

/// `prefix` followed by `value` in quotes (without escaping).
fn quoted_field(prefix: &str, value: &str) -> (r: String)
    ensures
        r@ == prefix@ + "\""@ + value@ + "\""@,
{
    let mut r = concat(prefix, "\"");
    r.append(value);
    r.append("\"");
    r
}

/// `prefix` followed by a signed number.
fn number_field(prefix: &str, n: i64) -> (r: String)
    ensures
        r@ == prefix@ + signed_decimal_of(n as int),
{
    concat(prefix, signed_decimal(n).as_str())
}

/// Appends `line` to `lines`.
fn push_line(lines: &mut Vec<String>, line: String)
    ensures
        string_views(final(lines)@) == string_views(old(lines)@).push(line@),
{
    lines.push(line);
    assert(string_views(lines@) =~= string_views(old(lines)@).push(line@));
}

/// The line of one facet.
fn facet_text(f: &FacetSpec) -> (r: String)
    ensures
        r@ == facet_line(*f),
{
    let mut parts: Vec<String> = Vec::new();
    assert(string_views(parts@) =~= Seq::<Seq<char>>::empty());
    let a = quoted_field("type = ", f.facet_type.as_str());
    let b = number_field("priority = ", f.priority as i64);
    let c = if f.config.len() == 0 {
        owned("config = {}")
    } else {
        concat("config = ", inline_table_text(&f.config).as_str())
    };
    let ghost (av, bv, cv) = (a@, b@, c@);
    push_line(&mut parts, a);
    push_line(&mut parts, b);
    push_line(&mut parts, c);
    assert(string_views(parts@) =~= seq![av, bv, cv]);
    let mut r = owned("  { ");
    r.append(crate::text::join(&parts, ", ").as_str());
    r.append(" },");
    r
}

/// Appends the first lines of a child.
fn push_child_head(lines: &mut Vec<String>, c: &ChildSpec)
    ensures
        string_views(final(lines)@) == string_views(old(lines)@) + child_head(*c),
{
    let kind_name = match c.child_type {
        ChildType::Supervisor => "supervisor",
        ChildType::Worker => "worker",
    };
    let restart = match c.restart {
        RestartPolicy::Transient => "transient",
        RestartPolicy::Temporary => "temporary",
        RestartPolicy::Permanent => "permanent",
    };
    proof {
        reveal_strlit("supervisor");
        reveal_strlit("worker");
        reveal_strlit("transient");
        reveal_strlit("temporary");
        reveal_strlit("permanent");
        assert(kind_name@ == child_type_name(c.child_type));
        assert(restart@ == restart_name(c.restart));
    }
    let a = owned("\n[[supervisor.children]]");
    let b = quoted_field("id = ", c.id.as_str());
    let t = quoted_field("type = ", kind_name);
    let d = quoted_field("restart = ", restart);
    let ghost vs = seq![a@, b@, t@, d@];
    assert(vs =~= child_head(*c));
    push_line(lines, a);
    push_line(lines, b);
    push_line(lines, t);
    push_line(lines, d);
    assert(string_views(lines@) =~= string_views(old(lines)@) + vs);
}

/// Appends the optional single lines of a child: timeout, arguments and
/// behavior kind.
fn push_child_options(lines: &mut Vec<String>, c: &ChildSpec)
    ensures
        string_views(final(lines)@) == string_views(old(lines)@) + timeout_part(*c) + args_part(*c) + behavior_part(*c),
{
    let ghost start = string_views(lines@);
    if let Some(t) = c.shutdown_timeout_seconds {
        push_line(lines, number_field("shutdown_timeout_seconds = ", t));
    }
    let ghost after_timeout = string_views(lines@);
    assert(after_timeout =~= start + timeout_part(*c));
    if c.args.len() > 0 {
        push_line(lines, concat("args = ", inline_table_text(&c.args).as_str()));
    }
    let ghost after_args = string_views(lines@);
    assert(after_args =~= after_timeout + args_part(*c));
    if let Some(b) = &c.behavior_kind {
        if b.unicode_len() > 0 {
            push_line(lines, concat("behavior_kind = ", quote(b.as_str()).as_str()));
        }
    }
    assert(string_views(lines@) =~= after_args + behavior_part(*c));
}

/// Appends the facet lines of a child.
fn push_child_facets(lines: &mut Vec<String>, c: &ChildSpec)
    ensures
        string_views(final(lines)@) == string_views(old(lines)@) + facet_lines(c.facets@),
{
    let ghost start = string_views(lines@);
    if c.facets.len() == 0 {
        assert(start + facet_lines(c.facets@) =~= start);
        return;
    }
    push_line(lines, owned("facets = ["));
    let ghost open_facets = string_views(lines@);
    let mut i: usize = 0;
    while i < c.facets.len()
        invariant
            i <= c.facets@.len(),
            string_views(lines@) == open_facets + c.facets@.take(i as int).map_values(|f: FacetSpec| facet_line(f)),
        decreases c.facets.len() - i,
    {
        let line = facet_text(&c.facets[i]);
        push_line(lines, line);
        proof {
            assert(c.facets@.take(i + 1).map_values(|f: FacetSpec| facet_line(f))
                =~= c.facets@.take(i as int).map_values(|f: FacetSpec| facet_line(f)).push(facet_line(c.facets@[i as int])));
        }
        i = i + 1;
    }
    assert(c.facets@.take(c.facets@.len() as int) =~= c.facets@);
    push_line(lines, owned("]"));
    assert(string_views(lines@) =~= start + facet_lines(c.facets@));
}

/// Appends the lines of one child.
fn push_child_lines(lines: &mut Vec<String>, c: &ChildSpec)
    ensures
        string_views(final(lines)@) == string_views(old(lines)@) + child_lines(*c),
{
    let ghost start = string_views(lines@);
    push_child_head(lines, c);
    push_child_options(lines, c);
    push_child_facets(lines, c);
    assert(string_views(lines@) =~= start + child_lines(*c));
}

/// Appends the seed-nodes line, when there are seed nodes.
fn push_seed_nodes(lines: &mut Vec<String>, spec: &ApplicationSpec)
    ensures
        string_views(final(lines)@) == string_views(old(lines)@) + seeds_part(*spec),
{
    let ghost start = string_views(lines@);
    if spec.seed_nodes.len() == 0 {
        assert(start + seeds_part(*spec) =~= start);
        return;
    }
    let mut quoted_seeds: Vec<String> = Vec::new();
    let ghost sv = string_views(spec.seed_nodes@);
    let mut i: usize = 0;
    assert(string_views(quoted_seeds@) =~= Seq::<Seq<char>>::empty());
    while i < spec.seed_nodes.len()
        invariant
            sv == string_views(spec.seed_nodes@),
            i <= spec.seed_nodes@.len(),
            string_views(quoted_seeds@) == sv.take(i as int).map_values(|s: Seq<char>| quoted(s)),
        decreases spec.seed_nodes.len() - i,
    {
        push_line(&mut quoted_seeds, quote(spec.seed_nodes[i].as_str()));
        proof {
            assert(sv.take(i + 1).map_values(|s: Seq<char>| quoted(s))
                =~= sv.take(i as int).map_values(|s: Seq<char>| quoted(s)).push(quoted(sv[i as int])));
        }
        i = i + 1;
    }
    assert(sv.take(sv.len() as int) =~= sv);
    let mut line = owned("seed_nodes = [");
    line.append(crate::text::join(&quoted_seeds, ", ").as_str());
    line.append("]");
    push_line(lines, line);
    assert(string_views(lines@) =~= start + seeds_part(*spec));
}

/// Appends the supervisor section.
fn push_supervisor(lines: &mut Vec<String>, sup: &SupervisorSpec)
    ensures
        string_views(final(lines)@) == string_views(old(lines)@) + supervisor_lines(*sup),
{
    let ghost start = string_views(lines@);
    let strategy = match sup.strategy {
        SupervisionStrategy::OneForAll => "one_for_all",
        SupervisionStrategy::RestForOne => "rest_for_one",
        SupervisionStrategy::OneForOne => "one_for_one",
    };
    proof {
        reveal_strlit("one_for_all");
        reveal_strlit("rest_for_one");
        reveal_strlit("one_for_one");
        assert(strategy@ == strategy_name(sup.strategy));
    }
    let a = owned("\n[supervisor]");
    let b = quoted_field("strategy = ", strategy);
    let c = number_field("max_restarts = ", sup.max_restarts as i64);
    let ghost head = seq![a@, b@, c@];
    assert(head =~= supervisor_head(*sup));
    push_line(lines, a);
    push_line(lines, b);
    push_line(lines, c);
    if let Some(w) = sup.max_restart_window_seconds {
        push_line(lines, number_field("max_restart_window_seconds = ", w));
    }
    let ghost before_children = string_views(lines@);
    assert(before_children =~= start + supervisor_head(*sup) + window_part(*sup));
    let mut i: usize = 0;
    assert(sup.children@.take(0) =~= Seq::<ChildSpec>::empty());
    assert(before_children + children_lines(sup.children@.take(0)) =~= before_children);
    while i < sup.children.len()
        invariant
            i <= sup.children@.len(),
            string_views(lines@) == before_children + children_lines(sup.children@.take(i as int)),
        decreases sup.children.len() - i,
    {
        proof {
            assert(sup.children@.take(i + 1).drop_last() =~= sup.children@.take(i as int));
            assert(sup.children@.take(i + 1).last() == sup.children@[i as int]);
        }
        push_child_lines(lines, &sup.children[i]);
        proof {
            assert(before_children + children_lines(sup.children@.take(i + 1))
                =~= before_children + children_lines(sup.children@.take(i as int)) + child_lines(sup.children@[i as int]));
        }
        i = i + 1;
    }
    assert(sup.children@.take(sup.children@.len() as int) =~= sup.children@);
    assert(string_views(lines@) =~= start + supervisor_lines(*sup));
}

/// The deployment configuration of an application as TOML text.
pub fn serialize_application_spec_to_toml(spec: &ApplicationSpec) -> (r: Result<String, String>)
    ensures
        r matches Ok(s) && s@ == application_toml(*spec),
{
    let mut lines: Vec<String> = Vec::new();
    assert(string_views(lines@) =~= Seq::<Seq<char>>::empty());
    let v = quoted_field("version = ", spec.version.as_str());
    let ghost vv = v@;
    push_line(&mut lines, v);
    let ghost l1 = string_views(lines@);
    assert(l1 =~= seq![vv]);
    if spec.namespace.unicode_len() > 0 {
        push_line(&mut lines, quoted_field("namespace = ", spec.namespace.as_str()));
    }
    let ghost l2 = string_views(lines@);
    assert(l2 =~= l1 + namespace_part(*spec));
    push_seed_nodes(&mut lines, spec);
    let ghost l3 = string_views(lines@);
    if let Some(sup) = &spec.supervisor {
        push_supervisor(&mut lines, sup);
    }
    assert(string_views(lines@) =~= l3 + supervisor_part(*spec));
    assert(string_views(lines@) =~= application_lines(*spec));
    Ok(crate::text::join(&lines, "\n"))
}

/// What saving an application to disk needs: nothing when saving is off; a
/// directory when it is on.
pub fn check_save_request(wasm_apps_dir: &str, save_wasm_apps: bool) -> (r: Result<bool, String>)
    ensures
        !save_wasm_apps ==> r == Ok::<bool, String>(false),
        save_wasm_apps && wasm_apps_dir@.len() == 0 ==> (r matches Err(m) && m@ == "wasm_apps_directory is empty"@),
        save_wasm_apps && wasm_apps_dir@.len() > 0 ==> r == Ok::<bool, String>(true),
{
    if !save_wasm_apps {
        return Ok(false);
    }
    if wasm_apps_dir.unicode_len() == 0 {
        return Err(owned("wasm_apps_directory is empty"));
    }
    Ok(true)
}

} // verus!
