//! The per-repository configuration record and its construction.

use vstd::prelude::*;

verus! {

/// The configuration remembered for one git repository: the selected
/// environment, region and module, and the infrastructure root under
/// which their directories live.
pub struct Config {
    /// Selected environment name; absent until one has been chosen.
    pub environment: Option<Vec<u8>>,
    /// Selected region name.
    pub region: Vec<u8>,
    /// Module name.
    pub module: Vec<u8>,
    /// Absolute or relative path of the infrastructure root.
    pub infra_dir: Vec<u8>,
}

/// The default region name, "us-east-1".
pub open spec fn default_region() -> Seq<u8> {
    seq![117u8, 115u8, 45u8, 101u8, 97u8, 115u8, 116u8, 45u8, 49u8]
}

/// The default module name, "vpc".
pub open spec fn default_module() -> Seq<u8> {
    seq![118u8, 112u8, 99u8]
}

/// The default infrastructure root, "../../".
pub open spec fn default_infra_dir() -> Seq<u8> {
    seq![46u8, 46u8, 47u8, 46u8, 46u8, 47u8]
}

/// The byte string "us-east-1".
pub fn default_region_bytes() -> (r: Vec<u8>)
    ensures
        r@ == default_region(),
{
    let r: Vec<u8> = vec![117, 115, 45, 101, 97, 115, 116, 45, 49];
    assert(r@ =~= default_region());
    r
}

/// The byte string "vpc".
pub fn default_module_bytes() -> (r: Vec<u8>)
    ensures
        r@ == default_module(),
{
    let r: Vec<u8> = vec![118, 112, 99];
    assert(r@ =~= default_module());
    r
}

/// The byte string "../../".
pub fn default_infra_dir_bytes() -> (r: Vec<u8>)
    ensures
        r@ == default_infra_dir(),
{
    let r: Vec<u8> = vec![46, 46, 47, 46, 46, 47];
    assert(r@ =~= default_infra_dir());
    r
}

impl Default for Config {
    /// The record used before anything has been selected: no
    /// environment, region "us-east-1", module "vpc", infrastructure
    /// root "../../".
    fn default() -> (r: Config)
        ensures
            r.environment is None,
            r.region@ == default_region(),
            r.module@ == default_module(),
            r.infra_dir@ == default_infra_dir(),
    {
        Config {
            environment: None,
            region: default_region_bytes(),
            module: default_module_bytes(),
            infra_dir: default_infra_dir_bytes(),
        }
    }
}

impl Config {
    /// The record created on the first run in a repository: the
    /// defaults, with the module seeded from the current directory's
    /// base name.
    pub fn first_run(cwd_basename: Vec<u8>) -> (r: Config)
        ensures
            r.environment is None,
            r.region@ == default_region(),
            r.module@ == cwd_basename@,
            r.infra_dir@ == default_infra_dir(),
    {
        Config {
            environment: None,
            region: default_region_bytes(),
            module: cwd_basename,
            infra_dir: default_infra_dir_bytes(),
        }
    }

    /// The record assembled at the end of the interactive flow, from
    /// the chosen environment, region and module and the resolved
    /// infrastructure root.
    pub fn from_selections(
        environment: Vec<u8>,
        region: Vec<u8>,
        module: Vec<u8>,
        infra_dir: Vec<u8>,
    ) -> (r: Config)
        ensures
            r.environment matches Some(e) && e@ == environment@,
            r.region@ == region@,
            r.module@ == module@,
            r.infra_dir@ == infra_dir@,
    {
        Config { environment: Some(environment), region, module, infra_dir }
    }
}

} // verus!
