//! How a node registration is written to the object registry as a node
//! object, and how a node object read back becomes a registration again.
//! Capabilities travel twice: as the object's capability names, and as its
//! labels, which keep their values (such as the cluster a node serves).

use std::collections::HashMap;
use vstd::prelude::*;

use crate::labels::{label_insert, label_keys, label_lookup, label_value};
use crate::node_registry::{NodeRegistration, NodeRole, NodeStatus, Timestamp};
use crate::text::{concat, owned};

verus! {

/// What the node registry writes to, and reads from, an object-registry
/// entry of type node (whose health is reported healthy when written).
pub struct NodeObject {
    pub object_id: String,
    pub object_name: String,
    pub node_id: String,
    pub grpc_address: String,
    pub object_category: String,
    pub tenant_id: String,
    pub namespace: String,
    pub capabilities: Vec<String>,
    pub labels: Option<HashMap<String, String>>,
    pub created_at: Option<Timestamp>,
    pub updated_at: Option<Timestamp>,
    pub last_heartbeat: Option<Timestamp>,
}

/// The capability `t` a node object stands for: its label value when it has
/// one, else `true` when `t` is one of its capability names.
pub open spec fn capability_value(labels: Option<Map<String, String>>, names: Seq<String>, t: Seq<char>) -> Option<Seq<char>> {
    let from_labels = match labels {
        Some(l) => label_value(l, t),
        None => None,
    };
    if from_labels is Some {
        from_labels
    } else if exists|i: int| 0 <= i < names.len() && names[i]@ == t {
        Some("true"@)
    } else {
        None
    }
}

/// The view of optional labels.
pub open spec fn labels_view(l: Option<HashMap<String, String>>) -> Option<Map<String, String>> {
    match l {
        Some(m) => Some(m@),
        None => None,
    }
}

/// The registration a node object stands for: ready, with the object's
/// heartbeat, its creation time as registration time, and the capabilities
/// rebuilt from its labels first and its capability names second.
pub fn to_node_registration(object: &NodeObject) -> (r: NodeRegistration)
    ensures
        r@.node_role == NodeRole::Unspecified,
        r@.node_id == object.object_id@,
        r@.node_address == object.grpc_address@,
        r@.status == NodeStatus::Ready,
        r@.last_heartbeat == object.last_heartbeat,
        r@.registered_at == object.created_at,
        r@.error_count == 0,
        forall|t: Seq<char>| #[trigger] label_value(r@.capabilities, t)
            == capability_value(labels_view(object.labels), object.capabilities@, t),
{
    let ghost names = object.capabilities@;
    let ghost labels = labels_view(object.labels);
    let mut capabilities: HashMap<String, String> = match &object.labels {
        Some(l) => l.clone(),
        None => HashMap::new(),
    };
    let mut i: usize = 0;
    assert forall|t: Seq<char>| #[trigger] label_value(capabilities@, t)
        == capability_value(labels, names.take(0), t) by {}
    while i < object.capabilities.len()
        invariant
            names == object.capabilities@,
            labels == labels_view(object.labels),
            i <= names.len(),
            forall|t: Seq<char>| #[trigger] label_value(capabilities@, t)
                == capability_value(labels, names.take(i as int), t),
        decreases names.len() - i,
    {
        let name = &object.capabilities[i];
        let ghost before = capabilities@;
        proof {
            assert forall|j: int| 0 <= j < i implies names.take(i + 1)[j] == names.take(i as int)[j] by {}
            assert(names.take(i + 1)[i as int] == names[i as int]);
        }
        if label_lookup(&capabilities, name.as_str()).is_none() {
            label_insert(&mut capabilities, name.clone(), owned("true"));
        }
        proof {
            let pre = names.take(i as int);
            let post = names.take(i + 1);
            assert forall|t: Seq<char>| #[trigger] label_value(capabilities@, t)
                == capability_value(labels, post, t) by {
                if t == name@ {
                    assert(post[i as int]@ == t);
                } else {
                    if exists|j: int| 0 <= j < post.len() && post[j]@ == t {
                        let j = choose|j: int| 0 <= j < post.len() && post[j]@ == t;
                        assert(pre[j] == post[j]);
                    }
                    if exists|j: int| 0 <= j < pre.len() && pre[j]@ == t {
                        let j = choose|j: int| 0 <= j < pre.len() && pre[j]@ == t;
                        assert(post[j] == pre[j]);
                    }
                }
            }
        }
        i = i + 1;
    }
    assert(names.take(names.len() as int) =~= names);
    NodeRegistration {
        node_role: NodeRole::Unspecified,
        node_id: owned(object.object_id.as_str()),
        node_address: owned(object.grpc_address.as_str()),
        capabilities,
        status: NodeStatus::Ready,
        last_heartbeat: object.last_heartbeat,
        error_count: 0,
        registered_at: object.created_at,
    }
}

/// The node object written for a registration at `now`, under the tenant
/// and namespace of the registry's own operations: named `Node <id>`, of
/// category `Node`, with the registration's capability names and, when it
/// has capabilities, all of them as labels; missing creation and heartbeat
/// times are taken as `now`.
pub fn to_object_registration(registration: &NodeRegistration, tenant_id: &str, namespace: &str, now: Timestamp) -> (o: NodeObject)
    ensures
        o.object_id@ == registration@.node_id,
        o.object_name@ == "Node "@ + registration@.node_id,
        o.node_id@ == registration@.node_id,
        o.grpc_address@ == registration@.node_address,
        o.object_category@ == "Node"@,
        o.tenant_id@ == tenant_id@,
        o.namespace@ == namespace@,
        forall|t: Seq<char>| (exists|i: int| 0 <= i < o.capabilities@.len() && o.capabilities@[i]@ == t)
            <==> #[trigger] label_value(registration@.capabilities, t) is Some,
        forall|i: int, j: int| 0 <= i < j < o.capabilities@.len() ==> o.capabilities@[i]@ != o.capabilities@[j]@,
        registration@.capabilities.dom().is_empty() ==> o.labels is None,
        !registration@.capabilities.dom().is_empty() ==> (o.labels matches Some(l) && l@ == registration@.capabilities),
        o.created_at == Some(match registration.registered_at { Some(t) => t, None => now }),
        o.updated_at == Some(now),
        o.last_heartbeat == Some(match registration.last_heartbeat { Some(t) => t, None => now }),
{
    let labels = if registration.capabilities.is_empty() {
        None
    } else {
        Some(registration.capabilities.clone())
    };
    let names = label_keys(&registration.capabilities);
    assert forall|t: Seq<char>| (exists|i: int| 0 <= i < names@.len() && names@[i]@ == t)
        <==> #[trigger] label_value(registration@.capabilities, t) is Some by {}
    let o = NodeObject {
        object_id: registration.node_id.clone(),
        object_name: concat("Node ", registration.node_id.as_str()),
        node_id: registration.node_id.clone(),
        grpc_address: registration.node_address.clone(),
        object_category: owned("Node"),
        tenant_id: owned(tenant_id),
        namespace: owned(namespace),
        capabilities: names,
        labels,
        created_at: Some(match registration.registered_at { Some(t) => t, None => now }),
        updated_at: Some(now),
        last_heartbeat: Some(match registration.last_heartbeat { Some(t) => t, None => now }),
    };
    assert(o.capabilities@ == names@);
    o
}

} // verus!
