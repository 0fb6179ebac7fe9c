//! The failures the library reports.

use vstd::prelude::*;

verus! {

/// What went wrong. Each variant but `NoNodesRemain` carries a description.
#[derive(Debug, Clone)]
pub enum Error {
    /// A file or socket operation failed.
    Io(String),
    /// A configuration value is invalid or could not be read.
    Config(String),
    /// The control channel refused a command or the authentication.
    Control(String),
    /// The state file could not be read, or what it holds breaks an invariant.
    State(String),
    /// The consensus holds no usable bandwidth weights.
    Consensus(String),
    /// Restrictions or exclusions left no relay to choose from.
    NoNodesRemain,
    /// An argument of a public entry point is malformed or out of range.
    Validation(String),
    /// The daemon has not loaded relay descriptors yet.
    DescriptorUnavailable(String),
}

impl Error {
    /// The text that introduces each kind of failure.
    pub open spec fn spec_prefix(self) -> Seq<char> {
        match self {
            Error::Io(_) => "I/O error: "@,
            Error::Config(_) => "configuration error: "@,
            Error::Control(_) => "Tor control error: "@,
            Error::State(_) => "state file error: "@,
            Error::Consensus(_) => "consensus parse error: "@,
            Error::NoNodesRemain => "no nodes remain after restrictions"@,
            Error::Validation(_) => "validation error: "@,
            Error::DescriptorUnavailable(_) => "descriptor unavailable: "@,
        }
    }

    /// The description a failure carries; empty for `NoNodesRemain`.
    pub open spec fn spec_detail(self) -> Seq<char> {
        match self {
            Error::Io(m) => m@,
            Error::Config(m) => m@,
            Error::Control(m) => m@,
            Error::State(m) => m@,
            Error::Consensus(m) => m@,
            Error::NoNodesRemain => Seq::<char>::empty(),
            Error::Validation(m) => m@,
            Error::DescriptorUnavailable(m) => m@,
        }
    }

    /// The operator-visible message: the kind's prefix, then the description.
    pub fn message(&self) -> (s: String)
        ensures
            s@ == self.spec_prefix() + self.spec_detail(),
    {
        let (prefix, detail): (&str, &str) = match self {
            Error::Io(m) => ("I/O error: ", m.as_str()),
            Error::Config(m) => ("configuration error: ", m.as_str()),
            Error::Control(m) => ("Tor control error: ", m.as_str()),
            Error::State(m) => ("state file error: ", m.as_str()),
            Error::Consensus(m) => ("consensus parse error: ", m.as_str()),
            Error::NoNodesRemain => ("no nodes remain after restrictions", ""),
            Error::Validation(m) => ("validation error: ", m.as_str()),
            Error::DescriptorUnavailable(m) => ("descriptor unavailable: ", m.as_str()),
        };
        proof {
            reveal_strlit("");
            assert(""@ =~= Seq::<char>::empty());
        }
        let mut s = String::from_str(prefix);
        s.append(detail);
        s
    }
}

} // verus!
