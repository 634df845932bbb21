use vstd::prelude::*;

verus! {

#[derive(Debug, PartialEq, Eq, Copy, Clone, Structural)]
pub enum Role {
    Server,
    Client,
}

impl Role {
    /// Which input the role holds: the server the first, the client the second.
    pub open spec fn spec_index(self) -> nat {
        match self {
            Role::Server => 0,
            Role::Client => 1,
        }
    }

    pub open spec fn spec_other(self) -> Role {
        match self {
            Role::Server => Role::Client,
            Role::Client => Role::Server,
        }
    }

    pub fn index(&self) -> (r: usize)
        ensures
            r == self.spec_index(),
    {
        match self {
            Role::Server => 0,
            Role::Client => 1,
        }
    }

    /// The peer's role.
    pub fn other(self) -> (r: Role)
        ensures
            r == self.spec_other(),
    {
        match self {
            Role::Server => Role::Client,
            Role::Client => Role::Server,
        }
    }
}

impl std::ops::Not for Role {
    type Output = Role;

    fn not(self) -> (r: Role) {
        self.other()
    }
}

impl vstd::std_specs::ops::NotSpecImpl for Role {
    open spec fn obeys_not_spec() -> bool {
        true
    }

    open spec fn not_req(self) -> bool {
        true
    }

    open spec fn not_spec(self) -> Role {
        self.spec_other()
    }
}

} // verus!
