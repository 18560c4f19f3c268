//! The identity of a backend instance.
use crate::tcp::table::Key;
use crate::text::same_text;
use vstd::prelude::*;

verus! {

/// One instance of an endpoint. All four fields tell it apart: services in other
/// namespaces or components may share its endpoint name and its number.
#[derive(Debug)]
pub struct EndpointInstanceId {
    /// The namespace of the service.
    pub namespace: String,
    /// The component of the service.
    pub component: String,
    /// The name of the endpoint.
    pub endpoint: String,
    /// The number of the instance.
    pub instance_id: u64,
}

/// What the identity of an instance holds.
pub struct InstanceView {
    /// The namespace of the service.
    pub namespace: Seq<char>,
    /// The component of the service.
    pub component: Seq<char>,
    /// The name of the endpoint.
    pub endpoint: Seq<char>,
    /// The number of the instance.
    pub instance_id: u64,
}

impl View for EndpointInstanceId {
    type V = InstanceView;

    open spec fn view(&self) -> InstanceView {
        InstanceView {
            namespace: self.namespace@,
            component: self.component@,
            endpoint: self.endpoint@,
            instance_id: self.instance_id,
        }
    }
}

impl Clone for EndpointInstanceId {
    fn clone(&self) -> (r: Self)
        ensures
            r@ == self@,
    {
        EndpointInstanceId {
            namespace: self.namespace.clone(),
            component: self.component.clone(),
            endpoint: self.endpoint.clone(),
            instance_id: self.instance_id,
        }
    }
}

impl Key for EndpointInstanceId {
    fn same(&self, other: &Self) -> (b: bool) {
        same_text(self.namespace.as_str(), other.namespace.as_str()) && same_text(
            self.component.as_str(),
            other.component.as_str(),
        ) && same_text(self.endpoint.as_str(), other.endpoint.as_str()) && self.instance_id
            == other.instance_id
    }
}

} // verus!
