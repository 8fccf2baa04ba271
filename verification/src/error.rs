//! What a caller can get wrong.

use vstd::prelude::*;

verus! {

/// A request that names something the registry does not hold.
#[derive(Debug)]
pub enum RegistryError {
    /// The service is not in the service set.
    NoSuchService { service: String },
    /// No target of the service begins with the host.
    NoSuchHost { service: String, host: String },
}

/// The two kinds of failure, over texts.
pub enum Failure {
    NoSuchService { service: Seq<char> },
    NoSuchHost { service: Seq<char>, host: Seq<char> },
}

impl View for RegistryError {
    type V = Failure;

    open spec fn view(&self) -> Failure {
        match self {
            RegistryError::NoSuchService { service } => Failure::NoSuchService {
                service: service@,
            },
            RegistryError::NoSuchHost { service, host } => Failure::NoSuchHost {
                service: service@,
                host: host@,
            },
        }
    }
}

/// The sentence that reports a failure.
pub open spec fn failure_message(failure: Failure) -> Seq<char> {
    match failure {
        Failure::NoSuchService { service } => "No such service registered: '"@ + service + "'"@,
        Failure::NoSuchHost { service, host } => "No host starting with '"@ + host
            + "' registered for "@ + service,
    }
}

impl RegistryError {
    /// The sentence that reports this failure.
    pub fn message(&self) -> (text: String)
        ensures
            text@ == failure_message(self@),
    {
        match self {
            RegistryError::NoSuchService { service } => {
                let mut text = String::from_str("No such service registered: '");
                text.append(service.as_str());
                text.append("'");
                text
            },
            RegistryError::NoSuchHost { service, host } => {
                let mut text = String::from_str("No host starting with '");
                text.append(host.as_str());
                text.append("' registered for ");
                text.append(service.as_str());
                text
            },
        }
    }
}

} // verus!
