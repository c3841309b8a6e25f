//! Which backend answers the calls to the control plane.

use vstd::prelude::*;

verus! {

/// The backend that stands behind the control plane.
#[non_exhaustive]
#[derive(Clone, Copy, Debug, PartialEq, Eq, Structural)]
pub enum ControlPlaneClient {
    /// The control plane proper, spoken to over the network.
    ProxyV1,
    /// A local mock that answers from a database.
    PostgresMock,
    /// A double that tests put in its place.
    Test,
}

/// The calls that the control plane answers.
#[derive(Clone, Copy, Debug, PartialEq, Eq, Structural)]
pub enum ControlPlaneCall {
    /// What a role may do on an endpoint.
    GetRoleAccessControl,
    /// Who may reach an endpoint.
    GetEndpointAccessControl,
    /// The keys that sign tokens for an endpoint.
    GetEndpointJwks,
    /// Wake the compute node of an endpoint.
    WakeCompute,
}

/// Where a call goes.
#[derive(Clone, Copy, Debug, PartialEq, Eq, Structural)]
pub enum Route {
    /// To the backend, whose answer is passed on.
    Backend,
    /// Nowhere: the answer is an empty list of rules.
    NoRules,
}

impl ControlPlaneClient {
    /// Whether the backend takes `call`. The test double takes every call
    /// but the one for a role's access control.
    pub open spec fn serves(self, call: ControlPlaneCall) -> bool {
        !(self == ControlPlaneClient::Test && call == ControlPlaneCall::GetRoleAccessControl)
    }

    /// Where `call` goes. The test double has no signing keys and answers
    /// with none; every other call goes to the backend.
    pub open spec fn route_of(self, call: ControlPlaneCall) -> Route {
        if self == ControlPlaneClient::Test && call == ControlPlaneCall::GetEndpointJwks {
            Route::NoRules
        } else {
            Route::Backend
        }
    }

    /// Whether the backend takes `call`.
    pub fn supports(&self, call: ControlPlaneCall) -> (yes: bool)
        ensures
            yes == self.serves(call),
    {
        !(*self == ControlPlaneClient::Test && call == ControlPlaneCall::GetRoleAccessControl)
    }

    /// Where `call` goes.
    pub fn route(&self, call: ControlPlaneCall) -> (route: Route)
        requires
            self.serves(call),
        ensures
            route == self.route_of(call),
    {
        if *self == ControlPlaneClient::Test && call == ControlPlaneCall::GetEndpointJwks {
            Route::NoRules
        } else {
            Route::Backend
        }
    }
}

} // verus!
