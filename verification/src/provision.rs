use vstd::prelude::*;

use crate::cidrs::AddressBlock;
use crate::models::RouteIntent;
use crate::models::RouteRule;

verus! {

/// One address assignment applied to the local interface. The process
/// configures a single interface, so the interface name is not part of
/// the record.
#[derive(Clone, Copy, Debug, PartialEq, Eq, Structural)]
pub struct AddressAssignment {
    /// The assigned host address.
    pub address: u128,
    /// The prefix length it was assigned with.
    pub prefix_length: u8,
}

/// One operating-system change the provisioner must carry out.
#[derive(Clone, Copy, Debug, PartialEq, Eq, Structural)]
pub enum ProvisionAction {
    /// Assign `address/prefix_length` to the local interface.
    AssignAddress { address: u128, prefix_length: u8 },
    /// Add a route to `destination` through the gateway `via`.
    AddRoute { destination: AddressBlock, via: u128 },
}

/// The address assignment an intent asks for.
pub open spec fn spec_assignment_of(intent: RouteIntent) -> AddressAssignment {
    AddressAssignment {
        address: intent.address_to_assign,
        prefix_length: intent.prefix_length,
    }
}

/// The applied assignments after planning one more: unchanged when the
/// assignment is already applied, else extended by it.
pub open spec fn spec_plan_addresses(
    applied: Seq<AddressAssignment>,
    a: AddressAssignment,
) -> Seq<AddressAssignment> {
    if applied.contains(a) {
        applied
    } else {
        applied.push(a)
    }
}

/// The applied routes after planning one more, if the intent has one.
pub open spec fn spec_plan_routes(applied: Seq<RouteRule>, route: Option<RouteRule>) -> Seq<
    RouteRule,
> {
    match route {
        Option::None => applied,
        Option::Some(r) => if applied.contains(r) {
            applied
        } else {
            applied.push(r)
        },
    }
}

/// The actions one intent requires on top of what is already applied:
/// only the assignment and route not yet present, in that order.
pub open spec fn spec_plan_actions(
    addresses: Seq<AddressAssignment>,
    routes: Seq<RouteRule>,
    intent: RouteIntent,
) -> Seq<ProvisionAction> {
    (if addresses.contains(spec_assignment_of(intent)) {
        Seq::<ProvisionAction>::empty()
    } else {
        seq![
            ProvisionAction::AssignAddress {
                address: intent.address_to_assign,
                prefix_length: intent.prefix_length,
            },
        ]
    }) + (match intent.route {
        Option::None => Seq::<ProvisionAction>::empty(),
        Option::Some(r) => if routes.contains(r) {
            Seq::<ProvisionAction>::empty()
        } else {
            seq![ProvisionAction::AddRoute { destination: r.destination, via: r.via }]
        },
    })
}

/// What this process has already applied to the operating system.
/// Planning against it makes re-provisioning the same intent a no-op
/// instead of a duplicate address or route entry.
#[derive(Debug)]
pub struct AppliedState {
    /// The address assignments already applied, oldest first.
    pub addresses: Vec<AddressAssignment>,
    /// The routes already applied, oldest first.
    pub routes: Vec<RouteRule>,
}

/// Linear membership scan over the applied assignments.
fn contains_assignment(applied: &Vec<AddressAssignment>, a: &AddressAssignment) -> (r: bool)
    ensures
        r == applied@.contains(*a),
{
    let mut i: usize = 0;
    while i < applied.len()
        invariant
            i <= applied@.len(),
            forall|j: int| 0 <= j < i ==> applied@[j] != *a,
        decreases applied@.len() - i,
    {
        if applied[i] == *a {
            return true;
        }
        i = i + 1;
    }
    false
}

/// Linear membership scan over the applied routes.
fn contains_route(applied: &Vec<RouteRule>, r: &RouteRule) -> (res: bool)
    ensures
        res == applied@.contains(*r),
{
    let mut i: usize = 0;
    while i < applied.len()
        invariant
            i <= applied@.len(),
            forall|j: int| 0 <= j < i ==> applied@[j] != *r,
        decreases applied@.len() - i,
    {
        if applied[i] == *r {
            return true;
        }
        i = i + 1;
    }
    false
}

impl AppliedState {
    /// A fresh state: nothing applied yet.
    pub fn new() -> (r: AppliedState)
        ensures
            r.addresses@ == Seq::<AddressAssignment>::empty(),
            r.routes@ == Seq::<RouteRule>::empty(),
    {
        AppliedState { addresses: Vec::new(), routes: Vec::new() }
    }

    /// Plan the changes one intent still requires, recording them as
    /// applied: an assignment or route already recorded yields no
    /// action, so the same intent planned twice acts only once.
    pub fn plan(&mut self, intent: &RouteIntent) -> (actions: Vec<ProvisionAction>)
        ensures
            final(self).addresses@ == spec_plan_addresses(
                old(self).addresses@,
                spec_assignment_of(*intent),
            ),
            final(self).routes@ == spec_plan_routes(old(self).routes@, intent.route),
            actions@ == spec_plan_actions(old(self).addresses@, old(self).routes@, *intent),
    {
        let mut actions: Vec<ProvisionAction> = Vec::new();
        let a = AddressAssignment {
            address: intent.address_to_assign,
            prefix_length: intent.prefix_length,
        };
        if !contains_assignment(&self.addresses, &a) {
            actions.push(
                ProvisionAction::AssignAddress {
                    address: intent.address_to_assign,
                    prefix_length: intent.prefix_length,
                },
            );
            self.addresses.push(a);
        }
        match &intent.route {
            None => {},
            Some(r) => {
                if !contains_route(&self.routes, r) {
                    actions.push(ProvisionAction::AddRoute { destination: r.destination, via: r.via });
                    self.routes.push(*r);
                }
            },
        }
        proof {
            assert(actions@ =~= spec_plan_actions(
                old(self).addresses@,
                old(self).routes@,
                *intent,
            ));
        }
        actions
    }
}

/// Law: planning the same intent a second time yields no action and
/// leaves the applied state unchanged — re-provisioning a negotiated
/// link never produces duplicate address or route entries.
pub proof fn lemma_provision_idempotent(
    addresses: Seq<AddressAssignment>,
    routes: Seq<RouteRule>,
    intent: RouteIntent,
)
    ensures
        spec_plan_actions(
            spec_plan_addresses(addresses, spec_assignment_of(intent)),
            spec_plan_routes(routes, intent.route),
            intent,
        ) == Seq::<ProvisionAction>::empty(),
        spec_plan_addresses(
            spec_plan_addresses(addresses, spec_assignment_of(intent)),
            spec_assignment_of(intent),
        ) == spec_plan_addresses(addresses, spec_assignment_of(intent)),
        spec_plan_routes(
            spec_plan_routes(routes, intent.route),
            intent.route,
        ) == spec_plan_routes(routes, intent.route),
{
    let a = spec_assignment_of(intent);
    let addrs2 = spec_plan_addresses(addresses, a);
    if !addresses.contains(a) {
        assert(addrs2[addresses.len() as int] == a);
        assert(addrs2.contains(a));
    }
    match intent.route {
        Option::None => {},
        Option::Some(r) => {
            let routes2 = spec_plan_routes(routes, intent.route);
            if !routes.contains(r) {
                assert(routes2[routes.len() as int] == r);
                assert(routes2.contains(r));
            }
        },
    }
    assert(spec_plan_actions(
        addrs2,
        spec_plan_routes(routes, intent.route),
        intent,
    ) =~= Seq::<ProvisionAction>::empty());
}

} // verus!
