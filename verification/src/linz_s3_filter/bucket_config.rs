//! The options with which the store of a bucket is opened.

use vstd::prelude::*;

verus! {

/// How the store of a bucket is reached: whether requests go unsigned, and
/// the region of the bucket.
#[derive(Clone, Copy, Debug, PartialEq, Eq)]
pub struct ConfigFile {
    pub skip_signature: &'static str,
    pub region: &'static str,
}

/// The options of a configuration as pairs of a name and a value.
pub open spec fn options_of(config: ConfigFile) -> Seq<(Seq<char>, Seq<char>)> {
    seq![("skip_signature"@, config.skip_signature@), ("region"@, config.region@)]
}

/// The configuration of the public buckets: unsigned requests to the region
/// `ap-southeast-2`.
pub open spec fn is_default_config(config: ConfigFile) -> bool {
    config.skip_signature@ == "true"@ && config.region@ == "ap-southeast-2"@
}

impl Default for ConfigFile {
    fn default() -> (config: Self)
        ensures
            is_default_config(config),
    {
        ConfigFile { skip_signature: "true", region: "ap-southeast-2" }
    }
}

impl ConfigFile {
    /// The configuration that every session shares.
    pub fn global() -> (config: ConfigFile)
        ensures
            is_default_config(config),
    {
        ConfigFile::init()
    }

    /// The configuration that a process starts with.
    pub fn init() -> (config: ConfigFile)
        ensures
            is_default_config(config),
    {
        ConfigFile { skip_signature: "true", region: "ap-southeast-2" }
    }

    /// The options of this configuration, in the form that a store takes
    /// them.
    pub fn opts(&self) -> (options: Vec<(&'static str, &'static str)>)
        ensures
            options.deep_view() == options_of(*self),
    {
        let mut options: Vec<(&'static str, &'static str)> = Vec::new();
        options.push(("skip_signature", self.skip_signature));
        options.push(("region", self.region));
        assert(options.deep_view() =~= options_of(*self));
        options
    }
}

/// The options of the shared configuration.
pub fn get_opts() -> (options: Vec<(&'static str, &'static str)>)
    ensures
        options.deep_view() == seq![
            ("skip_signature"@, "true"@),
            ("region"@, "ap-southeast-2"@),
        ],
{
    ConfigFile::global().opts()
}

} // verus!
