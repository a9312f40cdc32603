//! The services a variant inherits through its parent references.
use vstd::prelude::*;

verus! {

broadcast use vstd::std_specs::vec::group_vec_axioms;

/// A service of a parent layer: its short name and the position by which
/// the caller finds it again.
#[derive(Debug)]
pub struct ServiceRef {
    pub short_name: Option<String>,
    pub key: usize,
}

/// The kinds of layer a parent reference can lead to.
#[derive(Clone, Copy, Debug, PartialEq, Eq, Structural)]
pub enum LayerKind {
    EcuSharedData,
    Protocol,
    Variant,
}

/// The layer behind a parent reference: its short name and services.
#[derive(Debug)]
pub struct RefLayer {
    pub short_name: Option<String>,
    pub services: Option<Vec<ServiceRef>>,
}

/// A parent reference: to a layer (with the services it does not pass on),
/// to a functional group with references of its own, or to anything else.
#[derive(Debug)]
pub enum ParentRefNode {
    Layer { kind: LayerKind, layer: Option<RefLayer>, not_inherited: Vec<String> },
    FunctionalGroup { nested: Option<Vec<ParentRefNode>> },
    Other,
}

/// The name a layer goes by when it has none of its own.
pub open spec fn default_layer_name(kind: LayerKind) -> Seq<char> {
    match kind {
        LayerKind::EcuSharedData => "EcuSharedData"@,
        LayerKind::Protocol => "Protocol"@,
        LayerKind::Variant => "Variant"@,
    }
}

/// A service is passed on unless the reference names it as not inherited
/// (a service without a name is always passed on).
pub open spec fn passed_on(s: ServiceRef, not_inherited: Seq<String>) -> bool {
    match s.short_name {
        Some(n) => !exists|j: int| 0 <= j < not_inherited.len() && #[trigger] not_inherited[j]@ == n@,
        None => true,
    }
}

/// The services of `svcs` that are passed on, each with the layer's name.
pub open spec fn passed_services(svcs: Seq<ServiceRef>, not_inherited: Seq<String>, layer_name: Seq<char>) -> Seq<
    (ServiceRef, Seq<char>),
>
    decreases svcs.len(),
{
    if svcs.len() == 0 {
        Seq::empty()
    } else {
        passed_services(svcs.drop_last(), not_inherited, layer_name) + if passed_on(svcs.last(), not_inherited) {
            seq![(svcs.last(), layer_name)]
        } else {
            Seq::empty()
        }
    }
}

/// The services reached through the first `n` references, in order; a
/// functional group contributes what its own references reach.
pub open spec fn services_from(refs: Vec<ParentRefNode>, n: int) -> Seq<(ServiceRef, Seq<char>)>
    decreases refs, n,
{
    if n <= 0 || n > refs.len() {
        Seq::empty()
    } else {
        proof {
            vstd::std_specs::vec::axiom_vec_index_decreases(refs, n - 1);
        }
        services_from(refs, n - 1) + services_of(refs[n - 1])
    }
}

/// The services reached through one reference.
pub open spec fn services_of(r: ParentRefNode) -> Seq<(ServiceRef, Seq<char>)>
    decreases r, 0int,
{
    match r {
        ParentRefNode::Layer { kind, layer, not_inherited } => match layer {
            Some(l) => match l.services {
                Some(svcs) => passed_services(
                    svcs@,
                    not_inherited@,
                    match l.short_name {
                        Some(n) => n@,
                        None => default_layer_name(kind),
                    },
                ),
                None => Seq::empty(),
            },
            None => Seq::empty(),
        },
        ParentRefNode::FunctionalGroup { nested } => match nested {
            Some(v) => services_from(v, v.len() as int),
            None => Seq::empty(),
        },
        ParentRefNode::Other => Seq::empty(),
    }
}

pub open spec fn pairs_view(v: Seq<(ServiceRef, String)>) -> Seq<(ServiceRef, Seq<char>)> {
    v.map_values(|p: (ServiceRef, String)| (p.0, p.1@))
}

fn copy_service(s: &ServiceRef) -> (r: ServiceRef)
    ensures
        r == *s,
{
    ServiceRef {
        short_name: match &s.short_name {
            Some(n) => Some(n.clone()),
            None => None,
        },
        key: s.key,
    }
}

fn is_passed_on(s: &ServiceRef, not_inherited: &Vec<String>) -> (r: bool)
    ensures
        r == passed_on(*s, not_inherited@),
{
    match &s.short_name {
        Some(n) => {
            let mut j: usize = 0;
            while j < not_inherited.len()
                invariant
                    j <= not_inherited@.len(),
                    s.short_name == Some(*n),
                    forall|m: int| 0 <= m < j ==> #[trigger] not_inherited@[m]@ != n@,
                decreases not_inherited@.len() - j,
            {
                if crate::text::str_eq(not_inherited[j].as_str(), n.as_str()) {
                    assert(not_inherited@[j as int]@ == n@);
                    assert(exists|m: int| 0 <= m < not_inherited@.len() && #[trigger] not_inherited@[m]@ == n@);
                    assert(s.short_name == Some(*n));
                    return false;
                }
                j = j + 1;
            }
            true
        },
        None => true,
    }
}

fn push_pair(out: &mut Vec<(ServiceRef, String)>, s: ServiceRef, name: String)
    ensures
        pairs_view(final(out)@) == pairs_view(old(out)@).push((s, name@)),
{
    out.push((s, name));
    assert(pairs_view(out@) =~= pairs_view(old(out)@).push((s, name@)));
}

fn collect_passed(svcs: &Vec<ServiceRef>, not_inherited: &Vec<String>, layer_name: &String, out: &mut Vec<(ServiceRef, String)>)
    ensures
        pairs_view(final(out)@) == pairs_view(old(out)@) + passed_services(svcs@, not_inherited@, layer_name@),
{
    let mut i: usize = 0;
    while i < svcs.len()
        invariant
            i <= svcs@.len(),
            pairs_view(out@) == pairs_view(old(out)@) + passed_services(
                svcs@.subrange(0, i as int),
                not_inherited@,
                layer_name@,
            ),
        decreases svcs@.len() - i,
    {
        proof {
            let pre = svcs@.subrange(0, i as int + 1);
            assert(pre.drop_last() =~= svcs@.subrange(0, i as int));
            assert(pre.last() == svcs@[i as int]);
        }
        if is_passed_on(&svcs[i], not_inherited) {
            push_pair(out, copy_service(&svcs[i]), layer_name.clone());
        }
        proof {
            assert(pairs_view(out@) =~= pairs_view(old(out)@) + passed_services(
                svcs@.subrange(0, i as int + 1),
                not_inherited@,
                layer_name@,
            ));
        }
        i = i + 1;
    }
    assert(svcs@.subrange(0, svcs@.len() as int) =~= svcs@);
}

fn collect_services(refs: &Vec<ParentRefNode>, out: &mut Vec<(ServiceRef, String)>)
    ensures
        pairs_view(final(out)@) == pairs_view(old(out)@) + services_from(*refs, refs@.len() as int),
    decreases refs,
{
    let mut i: usize = 0;
    while i < refs.len()
        invariant
            i <= refs@.len(),
            pairs_view(out@) == pairs_view(old(out)@) + services_from(*refs, i as int),
        decreases refs@.len() - i,
    {
        let ghost before = pairs_view(out@);
        proof {
            vstd::std_specs::vec::axiom_vec_index_decreases(*refs, i as int);
        }
        match &refs[i] {
            ParentRefNode::Layer { kind, layer, not_inherited } => {
                if let Some(l) = layer {
                    if let Some(svcs) = &l.services {
                        let name = match &l.short_name {
                            Some(n) => n.clone(),
                            None => match kind {
                                LayerKind::EcuSharedData => "EcuSharedData".to_owned(),
                                LayerKind::Protocol => "Protocol".to_owned(),
                                LayerKind::Variant => "Variant".to_owned(),
                            },
                        };
                        collect_passed(svcs, not_inherited, &name, out);
                    }
                }
            },
            ParentRefNode::FunctionalGroup { nested } => {
                if let Some(v) = nested {
                    collect_services(v, out);
                }
            },
            ParentRefNode::Other => {},
        }
        proof {
            assert(pairs_view(out@) =~= before + services_of(refs@[i as int]));
            assert(services_from(*refs, i as int + 1) == services_from(*refs, i as int) + services_of(refs[i as int]));
        }
        i = i + 1;
    }
}

/// The key by which services are told apart: the short name, or nothing.
pub open spec fn service_key(s: ServiceRef) -> Seq<char> {
    match s.short_name {
        Some(n) => n@,
        None => Seq::empty(),
    }
}

/// The services in order, each key kept at its first occurrence only.
pub open spec fn first_by_key(s: Seq<(ServiceRef, Seq<char>)>) -> Seq<(ServiceRef, Seq<char>)>
    decreases s.len(),
{
    if s.len() == 0 {
        Seq::empty()
    } else {
        let kept = first_by_key(s.drop_last());
        if exists|j: int| 0 <= j < kept.len() && #[trigger] service_key(kept[j].0) == service_key(s.last().0) {
            kept
        } else {
            kept.push(s.last())
        }
    }
}

proof fn lemma_first_by_key_seen(s: Seq<(ServiceRef, Seq<char>)>, m: int)
    requires
        s.len() > 0,
        0 <= m < first_by_key(s.drop_last()).len(),
        service_key(first_by_key(s.drop_last())[m].0) == service_key(s.last().0),
    ensures
        first_by_key(s) == first_by_key(s.drop_last()),
{
    let kept = first_by_key(s.drop_last());
    assert(exists|j: int| 0 <= j < kept.len() && #[trigger] service_key(kept[j].0) == service_key(s.last().0));
    reveal_with_fuel(first_by_key, 2);
}

fn same_key(a: &ServiceRef, b: &ServiceRef) -> (r: bool)
    ensures
        r == (service_key(*a) == service_key(*b)),
{
    let empty = String::new();
    let x: &str = match &a.short_name {
        Some(n) => n.as_str(),
        None => empty.as_str(),
    };
    let y: &str = match &b.short_name {
        Some(n) => n.as_str(),
        None => empty.as_str(),
    };
    crate::text::str_eq(x, y)
}

/// Services inherited through parent references, each with the name of
/// the layer it comes from; a service name is kept at its first occurrence.
pub fn get_parent_ref_services_recursive(refs: Vec<ParentRefNode>) -> (r: Vec<(ServiceRef, String)>)
    ensures
        pairs_view(r@) == first_by_key(services_from(refs, refs@.len() as int)),
{
    let mut all: Vec<(ServiceRef, String)> = Vec::new();
    assert(pairs_view(all@) =~= Seq::<(ServiceRef, Seq<char>)>::empty());
    collect_services(&refs, &mut all);
    let ghost whole = pairs_view(all@);
    let mut rest = all;
    let mut kept: Vec<(ServiceRef, String)> = Vec::new();
    let ghost mut i: int = 0;
    while rest.len() > 0
        invariant
            0 <= i <= whole.len(),
            pairs_view(rest@) == whole.subrange(i, whole.len() as int),
            pairs_view(kept@) == first_by_key(whole.subrange(0, i)),
        decreases rest@.len(),
    {
        let ghost rest_before = pairs_view(rest@);
        let p = rest.remove(0);
        proof {
            assert(rest_before[0] == (p.0, p.1@));
            assert(rest_before.len() > 0);
            assert(whole.subrange(i, whole.len() as int)[0] == whole[i]);
        }
        let mut seen = false;
        let mut j: usize = 0;
        while j < kept.len()
            invariant
                j <= kept@.len(),
                seen <==> exists|m: int| 0 <= m < j && #[trigger] service_key(kept@[m].0) == service_key(p.0),
            decreases kept@.len() - j,
        {
            if same_key(&kept[j].0, &p.0) {
                seen = true;
            }
            j = j + 1;
        }
        proof {
            let pre = whole.subrange(0, i + 1);
            assert(pre.drop_last() =~= whole.subrange(0, i));
            assert(pre.last() == (p.0, p.1@));
            let kv = pairs_view(kept@);
            assert(kv == first_by_key(pre.drop_last()));
            if seen {
                let m = choose|m: int| 0 <= m < kept@.len() && #[trigger] service_key(kept@[m].0) == service_key(p.0);
                assert(kv[m].0 == kept@[m].0);
                assert(service_key(kv[m].0) == service_key(pre.last().0));
                assert(exists|j: int| 0 <= j < kv.len() && #[trigger] service_key(kv[j].0) == service_key(pre.last().0));
                assert(pre.len() > 0);
                lemma_first_by_key_seen(pre, m);
                assert(first_by_key(pre) == kv);
            } else {
                assert forall|m: int| 0 <= m < kv.len() implies #[trigger] service_key(kv[m].0) != service_key(
                    pre.last().0,
                ) by {
                    assert(kv[m].0 == kept@[m].0);
                }
                assert(first_by_key(pre) == kv.push(pre.last()));
            }
        }
        let ghost kept_before = pairs_view(kept@);
        if !seen {
            kept.push(p);
            assert(pairs_view(kept@) =~= kept_before.push((p.0, p.1@)));
        }
        proof {
            assert(pairs_view(rest@) =~= rest_before.drop_first());
            assert(whole.subrange(i + 1, whole.len() as int) =~= whole.subrange(i, whole.len() as int).drop_first());
            i = i + 1;
        }
    }
    assert(whole.subrange(0, i) =~= whole);
    kept
}

} // verus!
