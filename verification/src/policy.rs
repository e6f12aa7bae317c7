//! The measurement policy: which hash algorithm the registers use, which
//! system processes form the baseline, and whether containers are isolated
//! from each other. A field that is left out switches its feature off.

use vstd::prelude::*;
use crate::error::Error;
use crate::hash::HashAlgorithm;
use crate::text::same_text;

verus! {

/// What to measure of the system's own processes.
#[derive(Clone, Debug, PartialEq, Eq)]
pub struct SystemPolicy {
    pub with_parameter: Option<bool>,
    pub processes: Option<Vec<String>>,
}

/// What to measure of pods.
#[derive(Clone, Debug, PartialEq, Eq)]
pub struct KubernetesPolicy {
    pub with_parameter: Option<bool>,
    pub pods: Option<Vec<String>>,
}

/// How containers are measured and whether each sees only its own data.
#[derive(Clone, Debug, PartialEq, Eq)]
pub struct ContainerPolicy {
    pub with_parameter: Option<bool>,
    pub isolated: Option<bool>,
}

/// The three subjects of measurement.
#[derive(Clone, Debug, PartialEq, Eq)]
pub struct MeasurePolicy {
    pub system: Option<SystemPolicy>,
    pub kubernetes: Option<KubernetesPolicy>,
    pub container: Option<ContainerPolicy>,
}

/// The policy document.
#[derive(Clone, Debug, PartialEq, Eq)]
pub struct PolicyConfig {
    pub backend: Option<String>,
    pub hash_algorithm: Option<String>,
    pub measure: Option<MeasurePolicy>,
}

/// The algorithm that a policy's `hashAlgorithm` entry selects: SHA-384
/// where there is none, nothing where the name is not known.
pub open spec fn algorithm_by_name(name: Option<Seq<char>>) -> Option<HashAlgorithm> {
    match name {
        None => Some(HashAlgorithm::Sha384),
        Some(text) => if text == "sha1"@ {
            Some(HashAlgorithm::Sha1)
        } else if text == "sha256"@ {
            Some(HashAlgorithm::Sha256)
        } else if text == "sha384"@ {
            Some(HashAlgorithm::Sha384)
        } else if text == "sha512"@ {
            Some(HashAlgorithm::Sha512)
        } else {
            None
        },
    }
}

impl PolicyConfig {
    /// The name of the hash algorithm, as the document gives it.
    pub open spec fn algorithm_name(&self) -> Option<Seq<char>> {
        match self.hash_algorithm {
            Some(name) => Some(name@),
            None => None,
        }
    }

    /// The names of the system processes to measure, in the document's order.
    pub open spec fn processes_spec(&self) -> Option<Vec<String>> {
        match self.measure {
            Some(measure) => match measure.system {
                Some(system) => system.processes,
                None => None,
            },
            None => None,
        }
    }

    /// Whether a process is measured together with its arguments.
    pub open spec fn with_parameter_spec(&self) -> Option<bool> {
        match self.measure {
            Some(measure) => match measure.system {
                Some(system) => system.with_parameter,
                None => None,
            },
            None => None,
        }
    }

    /// Whether the document asks for isolated containers.
    pub open spec fn isolated_spec(&self) -> Option<bool> {
        match self.measure {
            Some(measure) => match measure.container {
                Some(container) => container.isolated,
                None => None,
            },
            None => None,
        }
    }

    /// The name of the hash algorithm, if the document gives one.
    pub fn hash_alogrithm(&self) -> (name: Option<&String>)
        ensures
            name is Some <==> self.hash_algorithm is Some,
            name matches Some(text) ==> self.hash_algorithm == Some(*text),
    {
        self.hash_algorithm.as_ref()
    }

    /// The system processes to measure, if the document lists any.
    pub fn system_processes(&self) -> (processes: Option<&Vec<String>>)
        ensures
            processes is Some <==> self.processes_spec() is Some,
            processes matches Some(list) ==> self.processes_spec() == Some(*list),
    {
        match &self.measure {
            Some(v) => match &v.system {
                Some(v) => v.processes.as_ref(),
                None => None,
            },
            None => None,
        }
    }

    /// Whether system processes are measured with their arguments, if the
    /// document says.
    pub fn system_with_parameter(&self) -> (flag: Option<bool>)
        ensures
            flag == self.with_parameter_spec(),
    {
        match &self.measure {
            Some(v) => match &v.system {
                Some(v) => v.with_parameter,
                None => None,
            },
            None => None,
        }
    }

    /// Whether containers are isolated, if the document says.
    pub fn container_isolated(&self) -> (flag: Option<bool>)
        ensures
            flag == self.isolated_spec(),
    {
        match &self.measure {
            Some(v) => match &v.container {
                Some(v) => v.isolated,
                None => None,
            },
            None => None,
        }
    }

    /// The hash algorithm of the registers: the one the document names,
    /// SHA-384 where it names none. A name other than `sha1`, `sha256`,
    /// `sha384` and `sha512` is a `ConfigError`.
    pub fn algorithm(&self) -> (chosen: Result<HashAlgorithm, Error>)
        ensures
            chosen matches Ok(algorithm) ==> algorithm_by_name(self.algorithm_name()) == Some(
                algorithm,
            ),
            chosen matches Err(e) ==> e == Error::ConfigError && algorithm_by_name(
                self.algorithm_name(),
            ) is None,
    {
        match &self.hash_algorithm {
            None => Ok(HashAlgorithm::Sha384),
            Some(name) => {
                let text = name.as_str();
                if same_text(text, "sha1") {
                    Ok(HashAlgorithm::Sha1)
                } else if same_text(text, "sha256") {
                    Ok(HashAlgorithm::Sha256)
                } else if same_text(text, "sha384") {
                    Ok(HashAlgorithm::Sha384)
                } else if same_text(text, "sha512") {
                    Ok(HashAlgorithm::Sha512)
                } else {
                    Err(Error::ConfigError)
                }
            },
        }
    }
}

} // verus!
