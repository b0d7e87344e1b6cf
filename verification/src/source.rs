//! The `Source` enum: what produced a `State`.
use vstd::prelude::*;

verus! {

/// What produced a state.
///
/// The default precedence `Static > Vpn > Dhcp > Ra > Kernel` holds for
/// [`Source::default_priority`]; see [`lemma_default_precedence`].
#[derive(Clone, Debug, PartialEq, Eq)]
pub enum Source {
    /// The static fields of a user policy. Default priority 100.
    Static {
        /// Identifies which policy produced the contribution.
        policy: String,
    },
    /// A VPN provider declared by a policy. Default priority 75.
    Vpn {
        /// Identifies which policy declared the provider.
        policy: String,
    },
    /// A DHCP provider declared by a policy. Default priority 50.
    Dhcp {
        /// Identifies which policy declared the provider.
        policy: String,
    },
    /// An IPv6 router-advertisement provider declared by a policy. Default priority 25.
    Ra {
        /// Identifies which policy declared the provider.
        policy: String,
    },
    /// Read from the running kernel. Default priority 0.
    Kernel,
}

/// The default priority of each source kind, as a mathematical integer.
pub open spec fn spec_default_priority(s: Source) -> int {
    match s {
        Source::Static { .. } => 100,
        Source::Vpn { .. } => 75,
        Source::Dhcp { .. } => 50,
        Source::Ra { .. } => 25,
        Source::Kernel => 0,
    }
}

/// The policy that a source names, if any.
pub open spec fn spec_policy(s: Source) -> Option<Seq<char>> {
    match s {
        Source::Static { policy } => Some(policy@),
        Source::Vpn { policy } => Some(policy@),
        Source::Dhcp { policy } => Some(policy@),
        Source::Ra { policy } => Some(policy@),
        Source::Kernel => None,
    }
}

impl Source {
    /// The default conflict-resolution priority for this source kind (higher wins).
    pub fn default_priority(&self) -> (p: i32)
        ensures
            p == spec_default_priority(*self),
    {
        match self {
            Source::Static { .. } => 100,
            Source::Vpn { .. } => 75,
            Source::Dhcp { .. } => 50,
            Source::Ra { .. } => 25,
            Source::Kernel => 0,
        }
    }

    /// The originating policy identifier (`None` for [`Source::Kernel`]).
    pub fn policy(&self) -> (r: Option<&str>)
        ensures
            match r {
                Some(p) => spec_policy(*self) == Some(p@),
                None => spec_policy(*self) is None,
            },
    {
        match self {
            Source::Static { policy } => Some(policy.as_str()),
            Source::Vpn { policy } => Some(policy.as_str()),
            Source::Dhcp { policy } => Some(policy.as_str()),
            Source::Ra { policy } => Some(policy.as_str()),
            Source::Kernel => None,
        }
    }
}

/// The default precedence: `Static > Vpn > Dhcp > Ra > Kernel`, whatever
/// policy each source names.
pub proof fn lemma_default_precedence(s: Source, v: Source, d: Source, r: Source, k: Source)
    requires
        s is Static,
        v is Vpn,
        d is Dhcp,
        r is Ra,
        k is Kernel,
    ensures
        spec_default_priority(s) > spec_default_priority(v),
        spec_default_priority(v) > spec_default_priority(d),
        spec_default_priority(d) > spec_default_priority(r),
        spec_default_priority(r) > spec_default_priority(k),
{
}

} // verus!
