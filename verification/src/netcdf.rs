//! NetCDF metadata from the file's structure: global attributes, dimensions, and
//! variables of the root and of nested groups, with caps on what is listed.

use vstd::prelude::*;

use crate::pickle::strings_view;
use crate::text::{append_chars, chars_of, string_of};

verus! {

/// Global attributes listed at most.
pub const MAX_GLOBAL_ATTRS: usize = 512;
/// Variables listed at most, over all groups.
pub const MAX_VARS_TOTAL: usize = 10_000;
/// Attributes listed per variable at most.
pub const MAX_ATTRS_PER_VAR: usize = 256;
/// Dimensions listed at most.
pub const MAX_DIMS_LISTED: usize = 512;
/// Group nesting walked at most.
pub const MAX_GROUP_DEPTH: usize = 128;

/// An attribute: its name and its value as text.
pub struct NetCdfAttributeEntry {
    pub name: String,
    pub value: String,
}

/// An attribute as read from the file: its name and its value as text, or the
/// message of the error met reading the value.
pub struct NcAttribute {
    pub name: String,
    pub value: Result<String, String>,
}

/// A variable as the file describes it: name, dimensions (name and length),
/// type label and attributes.
pub struct NcVariable {
    pub name: String,
    pub dimensions: Vec<(String, usize)>,
    pub vartype: String,
    pub attributes: Vec<NcAttribute>,
}

/// A group: its name, its variables and its child groups.
pub struct NcGroup {
    pub name: String,
    pub variables: Vec<NcVariable>,
    pub groups: Vec<NcGroup>,
}

/// A listed variable.
pub struct NetCdfVariableSummary {
    pub name: String,
    pub shape: Option<Vec<usize>>,
    pub dimension_names: Option<Vec<String>>,
    pub vartype: Option<String>,
    pub attributes: Option<Vec<NetCdfAttributeEntry>>,
}

/// Model of an attribute.
pub open spec fn attr_view(a: NetCdfAttributeEntry) -> (Seq<char>, Seq<char>) {
    (a.name@, a.value@)
}

/// How an attribute read from the file is listed: an unreadable value becomes
/// `<read error: ...>` with the error's message.
pub open spec fn attr_entry(a: NcAttribute) -> (Seq<char>, Seq<char>) {
    (a.name@, match a.value {
        Ok(v) => v@,
        Err(e) => "<read error: "@ + e@ + ">"@,
    })
}

/// How attributes read from the file are listed.
pub open spec fn attr_entries(v: Seq<NcAttribute>) -> Seq<(Seq<char>, Seq<char>)> {
    v.map_values(|a: NcAttribute| attr_entry(a))
}

/// Models of attributes.
pub open spec fn attrs_view(v: Seq<NetCdfAttributeEntry>) -> Seq<(Seq<char>, Seq<char>)> {
    v.map_values(|a: NetCdfAttributeEntry| attr_view(a))
}

/// Model of a listed variable: full name, shape, dimension names, type label,
/// attributes.
pub struct SummaryView {
    pub name: Seq<char>,
    pub shape: Seq<usize>,
    pub dimension_names: Seq<Seq<char>>,
    pub vartype: Seq<char>,
    pub attributes: Seq<(Seq<char>, Seq<char>)>,
}

/// Model of a listed variable (all its parts are always present).
pub open spec fn summary_view(s: NetCdfVariableSummary) -> SummaryView {
    SummaryView {
        name: s.name@,
        shape: match s.shape {
            Some(v) => v@,
            None => Seq::empty(),
        },
        dimension_names: match s.dimension_names {
            Some(v) => strings_view(v@),
            None => Seq::empty(),
        },
        vartype: match s.vartype {
            Some(t) => t@,
            None => Seq::empty(),
        },
        attributes: match s.attributes {
            Some(v) => attrs_view(v@),
            None => Seq::empty(),
        },
    }
}

/// Models of listed variables.
pub open spec fn summaries_view(v: Seq<NetCdfVariableSummary>) -> Seq<SummaryView> {
    v.map_values(|s: NetCdfVariableSummary| summary_view(s))
}

/// A full name: the prefix and the name joined by `/`, or the name alone.
pub open spec fn joined_name(prefix: Seq<char>, name: Seq<char>) -> Seq<char> {
    if prefix.len() == 0 {
        name
    } else {
        prefix + "/"@ + name
    }
}

/// The first `n` items (all when there are fewer).
pub open spec fn first_n<A>(s: Seq<A>, n: nat) -> Seq<A> {
    if s.len() <= n {
        s
    } else {
        s.take(n as int)
    }
}

/// How a variable is listed under `prefix`.
pub open spec fn listed(v: NcVariable, prefix: Seq<char>) -> SummaryView {
    SummaryView {
        name: joined_name(prefix, v.name@),
        shape: v.dimensions@.map_values(|d: (String, usize)| d.1),
        dimension_names: v.dimensions@.map_values(|d: (String, usize)| d.0@),
        vartype: v.vartype@,
        attributes: first_n(attr_entries(v.attributes@), MAX_ATTRS_PER_VAR as nat),
    }
}

/// Listing state: variables listed so far and whether something was left out.
pub struct Listing {
    pub out: Seq<SummaryView>,
    pub truncated: bool,
}

/// Listing the variables `vs` in order; the flag says the list was full before
/// a variable (the walk of that group then stops).
pub open spec fn list_vars(vs: Seq<NcVariable>, prefix: Seq<char>, st: Listing) -> (Listing, bool)
    decreases vs.len(),
{
    if vs.len() == 0 {
        (st, false)
    } else {
        let (s1, stopped) = list_vars(vs.drop_last(), prefix, st);
        if stopped {
            (s1, true)
        } else if s1.out.len() >= MAX_VARS_TOTAL {
            (Listing { out: s1.out, truncated: true }, true)
        } else {
            (Listing { out: s1.out.push(listed(vs.last(), prefix)), truncated: s1.truncated }, false)
        }
    }
}

/// Walking a group found at nesting `depth`: too deep, it only marks the listing
/// truncated; else its variables, then (unless the list filled up) its child
/// groups one level deeper, each under its own path.
pub open spec fn walk_spec(g: NcGroup, prefix: Seq<char>, st: Listing, depth: nat) -> Listing
    decreases g,
{
    if depth > MAX_GROUP_DEPTH {
        Listing { out: st.out, truncated: true }
    } else {
        let (s1, stopped) = list_vars(g.variables@, prefix, st);
        if stopped {
            s1
        } else {
            proof {
                assert(decreases_to!(g => g.groups));
                assert(decreases_to!(g.groups => g.groups@));
            }
            walk_children(g.groups@, prefix, s1, depth)
        }
    }
}

/// Walking child groups in order.
pub open spec fn walk_children(gs: Seq<NcGroup>, prefix: Seq<char>, st: Listing, depth: nat) -> Listing
    decreases gs,
{
    if gs.len() == 0 {
        st
    } else {
        proof {
            assert(decreases_to!(gs => gs.last()));
        }
        let s1 = walk_children(gs.drop_last(), prefix, st, depth);
        walk_spec(gs.last(), joined_name(prefix, gs.last().name@), s1, depth + 1)
    }
}

/// Joins a prefix and a name with `/` (the name alone under an empty prefix).
fn join_name(prefix: &str, name: &str) -> (r: String)
    ensures
        r@ == joined_name(prefix@, name@),
{
    let mut v = chars_of(prefix);
    if v.len() == 0 {
        return name.to_owned();
    }
    proof {
        reveal_strlit("/");
    }
    v.push('/');
    append_chars(&mut v, chars_of(name).as_slice());
    assert(v@ =~= prefix@ + "/"@ + name@);
    string_of(v.as_slice())
}

/// Lists an attribute read from the file.
fn attribute_entry(a: &NcAttribute) -> (r: NetCdfAttributeEntry)
    ensures
        attr_view(r) == attr_entry(*a),
{
    let value = match &a.value {
        Ok(v) => v.clone(),
        Err(e) => {
            proof {
                reveal_strlit("<read error: ");
                reveal_strlit(">");
            }
            let mut v = chars_of("<read error: ");
            append_chars(&mut v, chars_of(e.as_str()).as_slice());
            append_chars(&mut v, chars_of(">").as_slice());
            string_of(v.as_slice())
        },
    };
    NetCdfAttributeEntry { name: a.name.clone(), value }
}

/// Lists the first `n` attributes (all when there are fewer).
pub fn first_attrs(v: &Vec<NcAttribute>, n: usize) -> (r: Vec<NetCdfAttributeEntry>)
    ensures
        attrs_view(r@) == first_n(attr_entries(v@), n as nat),
{
    let mut r: Vec<NetCdfAttributeEntry> = Vec::new();
    let mut i: usize = 0;
    while i < v.len() && i < n
        invariant
            i <= v.len(),
            i <= n,
            attrs_view(r@) == attr_entries(v@).take(i as int),
        decreases v.len() - i,
    {
        let a = attribute_entry(&v[i]);
        let ghost prev = r@;
        r.push(a);
        proof {
            assert(r@ == prev.push(a));
            assert(attrs_view(r@) =~= attrs_view(prev).push(attr_view(a)));
            assert(attr_entries(v@).take(i + 1) =~= attr_entries(v@).take(i as int).push(attr_entry(v@[i as int])));
        }
        i = i + 1;
    }
    if v.len() <= n {
        assert(attr_entries(v@).take(i as int) =~= attr_entries(v@));
    }
    r
}

/// Lists one variable under `prefix`, unless the list is full (which marks it
/// truncated).
pub fn push_variable(var: &NcVariable, path_prefix: &str, out: &mut Vec<NetCdfVariableSummary>, truncated: &mut bool)
    ensures
        old(out).len() >= MAX_VARS_TOTAL ==> final(out)@ == old(out)@ && *final(truncated),
        old(out).len() < MAX_VARS_TOTAL ==> summaries_view(final(out)@) == summaries_view(old(out)@).push(listed(*var, path_prefix@)) && *final(truncated) == *old(truncated),
{
    if out.len() >= MAX_VARS_TOTAL {
        *truncated = true;
        return;
    }
    let name = join_name(path_prefix, var.name.as_str());
    let mut shape: Vec<usize> = Vec::new();
    let mut dims: Vec<String> = Vec::new();
    let mut i: usize = 0;
    while i < var.dimensions.len()
        invariant
            i <= var.dimensions.len(),
            shape@ == var.dimensions@.take(i as int).map_values(|d: (String, usize)| d.1),
            strings_view(dims@) == var.dimensions@.take(i as int).map_values(|d: (String, usize)| d.0@),
        decreases var.dimensions.len() - i,
    {
        let ghost prev_dims = dims@;
        let dim_name = var.dimensions[i].0.clone();
        shape.push(var.dimensions[i].1);
        dims.push(dim_name);
        proof {
            assert(dims@ == prev_dims.push(dim_name));
            assert(strings_view(dims@) =~= strings_view(prev_dims).push(dim_name@));
            assert(var.dimensions@.take(i + 1) =~= var.dimensions@.take(i as int).push(var.dimensions@[i as int]));
        }
        i = i + 1;
        assert(shape@ =~= var.dimensions@.take(i as int).map_values(|d: (String, usize)| d.1));
        assert(strings_view(dims@) =~= var.dimensions@.take(i as int).map_values(|d: (String, usize)| d.0@));
    }
    assert(var.dimensions@.take(i as int) =~= var.dimensions@);
    let attrs = first_attrs(&var.attributes, MAX_ATTRS_PER_VAR);
    let ghost before = out@;
    out.push(
        NetCdfVariableSummary {
            name,
            shape: Some(shape),
            dimension_names: Some(dims),
            vartype: Some(var.vartype.clone()),
            attributes: Some(attrs),
        },
    );
    assert(summaries_view(out@) =~= summaries_view(before).push(listed(*var, path_prefix@)));
}

/// Lists the variables of a group; `true` when the list was full before one of
/// them.
fn list_variables(vs: &Vec<NcVariable>, prefix: &str, out: &mut Vec<NetCdfVariableSummary>, truncated: &mut bool) -> (stopped: bool)
    ensures
        ({
            let (s, st) = list_vars(vs@, prefix@, Listing { out: summaries_view(old(out)@), truncated: *old(truncated) });
            &&& s.out == summaries_view(final(out)@)
            &&& s.truncated == *final(truncated)
            &&& st == stopped
        }),
{
    let ghost init = Listing { out: summaries_view(out@), truncated: *truncated };
    let mut i: usize = 0;
    while i < vs.len()
        invariant
            i <= vs.len(),
            init == (Listing { out: summaries_view(old(out)@), truncated: *old(truncated) }),
            list_vars(vs@.take(i as int), prefix@, init) == (Listing { out: summaries_view(out@), truncated: *truncated }, false),
        decreases vs.len() - i,
    {
        assert(vs@.take(i + 1).drop_last() =~= vs@.take(i as int));
        assert(vs@.take(i + 1).last() == vs@[i as int]);
        if out.len() >= MAX_VARS_TOTAL {
            *truncated = true;
            proof {
                let (s1, st1) = list_vars(vs@.take(i as int), prefix@, init);
                assert(s1.out.len() == out@.len());
                assert(list_vars(vs@.take(i + 1), prefix@, init) == (Listing { out: s1.out, truncated: true }, true));
                lemma_list_vars_stopped(vs@, prefix@, init, i + 1);
            }
            return true;
        }
        push_variable(&vs[i], prefix, out, truncated);
        i = i + 1;
    }
    assert(vs@.take(i as int) =~= vs@);
    false
}

proof fn lemma_list_vars_stopped(vs: Seq<NcVariable>, prefix: Seq<char>, st: Listing, k: int)
    requires
        0 < k <= vs.len(),
        list_vars(vs.take(k), prefix, st).1,
    ensures
        list_vars(vs, prefix, st) == list_vars(vs.take(k), prefix, st),
    decreases vs.len() - k,
{
    if k < vs.len() {
        assert(vs.take(k + 1).drop_last() =~= vs.take(k));
        lemma_list_vars_stopped(vs, prefix, st, k + 1);
    } else {
        assert(vs.take(k) =~= vs);
    }
}

/// Walks a group found at nesting `depth` under `prefix`, listing its variables
/// and those of its child groups.
pub fn walk_group(g: &NcGroup, prefix: &str, out: &mut Vec<NetCdfVariableSummary>, truncated: &mut bool, depth: usize) -> (r: Result<(), String>)
    ensures
        r is Ok,
        ({
            let s = walk_spec(*g, prefix@, Listing { out: summaries_view(old(out)@), truncated: *old(truncated) }, depth as nat);
            s.out == summaries_view(final(out)@) && s.truncated == *final(truncated)
        }),
    decreases g,
{
    if depth > MAX_GROUP_DEPTH {
        *truncated = true;
        return Ok(());
    }
    if list_variables(&g.variables, prefix, out, truncated) {
        return Ok(());
    }
    let ghost mid = Listing { out: summaries_view(out@), truncated: *truncated };
    let mut i: usize = 0;
    while i < g.groups.len()
        invariant
            i <= g.groups.len(),
            depth <= MAX_GROUP_DEPTH,
            walk_children(g.groups@.take(i as int), prefix@, mid, depth as nat) == (Listing { out: summaries_view(out@), truncated: *truncated }),
        decreases g.groups.len() - i,
    {
        assert(g.groups@.take(i + 1).drop_last() =~= g.groups@.take(i as int));
        assert(g.groups@.take(i + 1).last() == g.groups@[i as int]);
        assert(decreases_to!(*g => g.groups@[i as int])) by {
            assert(decreases_to!(*g => g.groups));
            assert(decreases_to!(g.groups => g.groups@));
        }
        let child = &g.groups[i];
        let next = join_name(prefix, child.name.as_str());
        let _ = walk_group(child, next.as_str(), out, truncated, depth + 1);
        i = i + 1;
    }
    assert(g.groups@.take(i as int) =~= g.groups@);
    Ok(())
}

/// A NetCDF file as read: whether it has the NetCDF-4 group model (then
/// `root_groups` holds the child groups of the root), its global attributes,
/// dimensions (name and length) and root variables.
pub struct NcFile {
    pub global_attributes: Vec<NcAttribute>,
    pub dimensions: Vec<(String, usize)>,
    pub variables: Vec<NcVariable>,
    pub root_groups: Option<Vec<NcGroup>>,
}

/// NetCDF metadata.
pub struct NetCdfMetadata {
    pub byte_count: usize,
    pub netcdf4_model: Option<bool>,
    pub global_attributes: Option<Vec<NetCdfAttributeEntry>>,
    pub dimension_count: Option<usize>,
    pub dimensions_sample: Option<Vec<(String, usize)>>,
    pub variable_count: Option<usize>,
    pub variables: Option<Vec<NetCdfVariableSummary>>,
    pub metadata_truncated: Option<bool>,
    pub parse_error: Option<String>,
}

/// Model of a dimension.
pub open spec fn dim_view(d: (String, usize)) -> (Seq<char>, usize) {
    (d.0@, d.1)
}

/// Models of dimensions.
pub open spec fn dims_view(v: Seq<(String, usize)>) -> Seq<(Seq<char>, usize)> {
    v.map_values(|d: (String, usize)| dim_view(d))
}

/// Walking the root's child groups in order, each under its own name at depth 0;
/// a group met with the list already full only marks it truncated.
pub open spec fn walk_top(gs: Seq<NcGroup>, st: Listing) -> Listing
    decreases gs.len(),
{
    if gs.len() == 0 {
        st
    } else {
        let s1 = walk_top(gs.drop_last(), st);
        if s1.out.len() >= MAX_VARS_TOTAL {
            Listing { out: s1.out, truncated: true }
        } else {
            walk_spec(gs.last(), gs.last().name@, s1, 0)
        }
    }
}

/// The listing of a whole file: the root variables, then the nested groups.
pub open spec fn file_listing(f: NcFile) -> Listing {
    let (s1, _) = list_vars(f.variables@, Seq::empty(), Listing { out: Seq::empty(), truncated: false });
    match f.root_groups {
        Some(gs) => walk_top(gs@, s1),
        None => s1,
    }
}

/// The global attributes, at most `MAX_GLOBAL_ATTRS` of them.
pub fn collect_global_attrs(file: &NcFile, out: &mut Vec<NetCdfAttributeEntry>)
    ensures
        attrs_view(final(out)@) == attrs_view(old(out)@) + first_n(attr_entries(file.global_attributes@), MAX_GLOBAL_ATTRS as nat),
{
    let listed_attrs = first_attrs(&file.global_attributes, MAX_GLOBAL_ATTRS);
    let ghost before = out@;
    let mut i: usize = 0;
    while i < listed_attrs.len()
        invariant
            i <= listed_attrs.len(),
            attrs_view(out@) == attrs_view(before) + attrs_view(listed_attrs@).take(i as int),
        decreases listed_attrs.len() - i,
    {
        let a = NetCdfAttributeEntry { name: listed_attrs[i].name.clone(), value: listed_attrs[i].value.clone() };
        let ghost prev = out@;
        out.push(a);
        proof {
            assert(out@ == prev.push(a));
            assert(attrs_view(out@) =~= attrs_view(prev).push(attr_view(a)));
            assert(attrs_view(listed_attrs@).take(i + 1) =~= attrs_view(listed_attrs@).take(i as int).push(attr_view(listed_attrs@[i as int])));
        }
        i = i + 1;
    }
    assert(attrs_view(listed_attrs@).take(i as int) =~= attrs_view(listed_attrs@));
}

/// The first dimensions, at most `MAX_DIMS_LISTED` of them.
fn dimensions_sample(dims: &Vec<(String, usize)>) -> (r: Vec<(String, usize)>)
    ensures
        dims_view(r@) == first_n(dims_view(dims@), MAX_DIMS_LISTED as nat),
{
    let mut r: Vec<(String, usize)> = Vec::new();
    let mut i: usize = 0;
    while i < dims.len() && i < MAX_DIMS_LISTED
        invariant
            i <= dims.len(),
            i <= MAX_DIMS_LISTED,
            dims_view(r@) == dims_view(dims@).take(i as int),
        decreases dims.len() - i,
    {
        let d = (dims[i].0.clone(), dims[i].1);
        let ghost prev = r@;
        r.push(d);
        proof {
            assert(r@ == prev.push(d));
            assert(dims_view(r@) =~= dims_view(prev).push(dim_view(d)));
            assert(dims_view(dims@).take(i + 1) =~= dims_view(dims@).take(i as int).push(dim_view(dims@[i as int])));
        }
        i = i + 1;
    }
    if dims.len() <= MAX_DIMS_LISTED {
        assert(dims_view(dims@).take(i as int) =~= dims_view(dims@));
    }
    r
}

/// Extracts NetCDF metadata from the file's structure: global attributes and
/// dimensions (each capped), then every variable of the root and of the nested
/// groups with its full path, shape, dimension names, type and attributes, up to
/// `MAX_VARS_TOTAL` variables (`metadata_truncated` says when something was left
/// out).
pub fn extract_netcdf_metadata(file: &NcFile, byte_count: usize) -> (r: Result<NetCdfMetadata, String>)
    ensures
        r matches Ok(m) && {
            let listing = file_listing(*file);
            &&& m.byte_count == byte_count
            &&& m.netcdf4_model == Some(file.root_groups is Some)
            &&& m.global_attributes matches Some(g) && attrs_view(g@) == first_n(attr_entries(file.global_attributes@), MAX_GLOBAL_ATTRS as nat)
            &&& m.dimensions_sample matches Some(d) && dims_view(d@) == first_n(dims_view(file.dimensions@), MAX_DIMS_LISTED as nat)
            &&& m.dimension_count == Some(if file.dimensions.len() <= MAX_DIMS_LISTED { file.dimensions.len() } else { MAX_DIMS_LISTED })
            &&& m.variables matches Some(v) && summaries_view(v@) == listing.out
            &&& m.variable_count == Some(listing.out.len() as usize)
            &&& m.metadata_truncated == Some(listing.truncated)
            &&& m.parse_error is None
        },
{
    let mut global_attributes: Vec<NetCdfAttributeEntry> = Vec::new();
    collect_global_attrs(file, &mut global_attributes);
    assert(attrs_view(global_attributes@) =~= first_n(attr_entries(file.global_attributes@), MAX_GLOBAL_ATTRS as nat));
    let sample = dimensions_sample(&file.dimensions);
    let dimension_count = sample.len();
    let mut variables: Vec<NetCdfVariableSummary> = Vec::new();
    let mut truncated = false;
    proof {
        reveal_strlit("");
        assert(summaries_view(variables@) =~= Seq::<SummaryView>::empty());
    }
    let ghost start = Listing { out: summaries_view(variables@), truncated };
    list_variables(&file.variables, "", &mut variables, &mut truncated);
    let ghost after_root = Listing { out: summaries_view(variables@), truncated };
    assert(start == (Listing { out: Seq::empty(), truncated: false }));
    assert(""@ =~= Seq::<char>::empty());
    assert(after_root == list_vars(file.variables@, Seq::empty(), Listing { out: Seq::empty(), truncated: false }).0);
    let netcdf4 = file.root_groups.is_some();
    match &file.root_groups {
        Some(groups) => {
            let mut i: usize = 0;
            while i < groups.len()
                invariant
                    i <= groups.len(),
                    walk_top(groups@.take(i as int), after_root) == (Listing { out: summaries_view(variables@), truncated }),
                decreases groups.len() - i,
            {
                assert(groups@.take(i + 1).drop_last() =~= groups@.take(i as int));
                assert(groups@.take(i + 1).last() == groups@[i as int]);
                if variables.len() >= MAX_VARS_TOTAL {
                    truncated = true;
                } else {
                    let child = &groups[i];
                    let _ = walk_group(child, child.name.as_str(), &mut variables, &mut truncated, 0);
                }
                i = i + 1;
            }
            assert(groups@.take(i as int) =~= groups@);
        },
        None => {},
    }
    assert(file_listing(*file) == (Listing { out: summaries_view(variables@), truncated }));
    let variable_count = variables.len();
    Ok(NetCdfMetadata {
        byte_count,
        netcdf4_model: Some(netcdf4),
        global_attributes: Some(global_attributes),
        dimension_count: Some(dimension_count),
        dimensions_sample: Some(sample),
        variable_count: Some(variable_count),
        variables: Some(variables),
        metadata_truncated: Some(truncated),
        parse_error: None,
    })
}

proof fn lemma_list_vars_capped(vs: Seq<NcVariable>, prefix: Seq<char>, st: Listing)
    requires
        st.out.len() <= MAX_VARS_TOTAL,
    ensures
        list_vars(vs, prefix, st).0.out.len() <= MAX_VARS_TOTAL,
    decreases vs.len(),
{
    if vs.len() > 0 {
        lemma_list_vars_capped(vs.drop_last(), prefix, st);
    }
}

proof fn lemma_walk_capped(g: NcGroup, prefix: Seq<char>, st: Listing, depth: nat)
    requires
        st.out.len() <= MAX_VARS_TOTAL,
    ensures
        walk_spec(g, prefix, st, depth).out.len() <= MAX_VARS_TOTAL,
    decreases g,
{
    if depth <= MAX_GROUP_DEPTH {
        lemma_list_vars_capped(g.variables@, prefix, st);
        let (s1, stopped) = list_vars(g.variables@, prefix, st);
        if !stopped {
            assert(decreases_to!(g => g.groups));
            assert(decreases_to!(g.groups => g.groups@));
            lemma_children_capped(g.groups@, prefix, s1, depth);
        }
    }
}

proof fn lemma_children_capped(gs: Seq<NcGroup>, prefix: Seq<char>, st: Listing, depth: nat)
    requires
        st.out.len() <= MAX_VARS_TOTAL,
    ensures
        walk_children(gs, prefix, st, depth).out.len() <= MAX_VARS_TOTAL,
    decreases gs,
{
    if gs.len() > 0 {
        assert(decreases_to!(gs => gs.last()));
        lemma_children_capped(gs.drop_last(), prefix, st, depth);
        let s1 = walk_children(gs.drop_last(), prefix, st, depth);
        lemma_walk_capped(gs.last(), joined_name(prefix, gs.last().name@), s1, depth + 1);
    }
}

proof fn lemma_walk_top_capped(gs: Seq<NcGroup>, st: Listing)
    requires
        st.out.len() <= MAX_VARS_TOTAL,
    ensures
        walk_top(gs, st).out.len() <= MAX_VARS_TOTAL,
    decreases gs.len(),
{
    if gs.len() > 0 {
        lemma_walk_top_capped(gs.drop_last(), st);
        let s1 = walk_top(gs.drop_last(), st);
        if s1.out.len() < MAX_VARS_TOTAL {
            lemma_walk_capped(gs.last(), gs.last().name@, s1, 0);
        }
    }
}

/// However many variables and groups a file holds, at most `MAX_VARS_TOTAL`
/// variables are listed.
pub proof fn law_netcdf_variables_capped(f: NcFile)
    ensures
        file_listing(f).out.len() <= MAX_VARS_TOTAL,
{
    let st = Listing { out: Seq::empty(), truncated: false };
    lemma_list_vars_capped(f.variables@, Seq::empty(), st);
    let (s1, _) = list_vars(f.variables@, Seq::empty(), st);
    match f.root_groups {
        Some(gs) => lemma_walk_top_capped(gs@, s1),
        None => {},
    }
}

proof fn lemma_list_vars_room(vs: Seq<NcVariable>, prefix: Seq<char>, st: Listing)
    requires
        st.out.len() + vs.len() <= MAX_VARS_TOTAL,
    ensures
        list_vars(vs, prefix, st) == (Listing {
            out: st.out + vs.map_values(|v: NcVariable| listed(v, prefix)),
            truncated: st.truncated,
        }, false),
    decreases vs.len(),
{
    if vs.len() > 0 {
        lemma_list_vars_room(vs.drop_last(), prefix, st);
        assert(vs.map_values(|v: NcVariable| listed(v, prefix)) =~= vs.drop_last().map_values(
            |v: NcVariable| listed(v, prefix),
        ).push(listed(vs.last(), prefix)));
    } else {
        assert(st.out + vs.map_values(|v: NcVariable| listed(v, prefix)) =~= st.out);
    }
}

/// A file without groups and with no more than `MAX_VARS_TOTAL` variables has
/// every variable listed, in order, under its own name, and nothing is marked
/// truncated.
pub proof fn law_netcdf_small_flat_file_listed_whole(f: NcFile)
    requires
        f.root_groups is None,
        f.variables.len() <= MAX_VARS_TOTAL,
    ensures
        file_listing(f).out == f.variables@.map_values(|v: NcVariable| listed(v, Seq::empty())),
        !file_listing(f).truncated,
{
    let st = Listing { out: Seq::empty(), truncated: false };
    lemma_list_vars_room(f.variables@, Seq::empty(), st);
    assert(st.out + f.variables@.map_values(|v: NcVariable| listed(v, Seq::empty())) =~= f.variables@.map_values(
        |v: NcVariable| listed(v, Seq::empty()),
    ));
}

} // verus!
