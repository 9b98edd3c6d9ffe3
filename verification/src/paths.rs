//! Path derivations: the per-repository state-file path and the module
//! variable-file paths, together with their laws.

use vstd::prelude::*;
use crate::bytestr::append_bytes;
use crate::bytestr::copy_bytes;
use crate::config::Config;
use crate::error::ModuleError;

verus! {

/// The path separator byte, "/".
pub const SEPARATOR: u8 = 47;

/// The byte that replaces the separator in state-file names, "%".
pub const SENTINEL: u8 = 37;

/// The newline byte.
pub const NEWLINE: u8 = 10;

/// Joins two path fragments, inserting a separator unless the left
/// fragment is empty or already ends with one.
pub open spec fn spec_join(a: Seq<u8>, b: Seq<u8>) -> Seq<u8> {
    if a.len() == 0 {
        b
    } else if a[a.len() - 1] == SEPARATOR {
        a + b
    } else {
        a + seq![SEPARATOR] + b
    }
}

/// The state-file name of a repository root: every separator replaced
/// by the sentinel byte.
pub open spec fn spec_sanitize(root: Seq<u8>) -> Seq<u8> {
    root.map_values(|c: u8| if c == SEPARATOR { SENTINEL } else { c })
}

/// The extension of the state file, ".toml".
pub open spec fn state_extension() -> Seq<u8> {
    seq![46u8, 116u8, 111u8, 109u8, 108u8]
}

/// The extension of variable files, ".tfvars".
pub open spec fn varfile_extension() -> Seq<u8> {
    seq![46u8, 116u8, 102u8, 118u8, 97u8, 114u8, 115u8]
}

/// The field name "environment", reported when that selection is
/// missing.
pub open spec fn environment_field() -> Seq<u8> {
    seq![101u8, 110u8, 118u8, 105u8, 114u8, 111u8, 110u8, 109u8, 101u8, 110u8, 116u8]
}

/// The state-file path of one repository: the sanitized root with the
/// state extension, under the state directory.
pub open spec fn spec_state_filepath(state_dir: Seq<u8>, git_root: Seq<u8>) -> Seq<u8> {
    spec_join(state_dir, spec_sanitize(git_root) + state_extension())
}

/// The directory of a module: infrastructure root, then environment,
/// region and module name.
pub open spec fn spec_module_dir(
    infra_dir: Seq<u8>,
    environment: Seq<u8>,
    region: Seq<u8>,
    module: Seq<u8>,
) -> Seq<u8> {
    spec_join(spec_join(spec_join(infra_dir, environment), region), module)
}

/// A variable file inside a module directory: the basename with the
/// ".tfvars" extension, under the directory.
pub open spec fn spec_var_file(dir: Seq<u8>, basename: Seq<u8>) -> Seq<u8> {
    spec_join(dir, basename + varfile_extension())
}

/// Distinct repository roots receive distinct state-file paths, as
/// long as neither root already contains the sentinel byte (an
/// ordinary absolute path does not).
pub proof fn lemma_state_filepath_injective(state_dir: Seq<u8>, r1: Seq<u8>, r2: Seq<u8>)
    requires
        r1 != r2,
        !r1.contains(SENTINEL),
        !r2.contains(SENTINEL),
    ensures
        spec_state_filepath(state_dir, r1) != spec_state_filepath(state_dir, r2),
{
    let s1 = spec_sanitize(r1) + state_extension();
    let s2 = spec_sanitize(r2) + state_extension();
    let p: Seq<u8> = if state_dir.len() == 0 {
        Seq::empty()
    } else if state_dir[state_dir.len() - 1] == SEPARATOR {
        state_dir
    } else {
        state_dir + seq![SEPARATOR]
    };
    assert(spec_state_filepath(state_dir, r1) =~= p + s1);
    assert(spec_state_filepath(state_dir, r2) =~= p + s2);
    if r1.len() != r2.len() {
        assert((p + s1).len() != (p + s2).len());
    } else {
        assert(exists|j: int| 0 <= j < r1.len() && r1[j] != r2[j]) by {
            if forall|j: int| 0 <= j < r1.len() ==> r1[j] == r2[j] {
                assert(r1 =~= r2);
            }
        }
        let j = choose|j: int| 0 <= j < r1.len() && r1[j] != r2[j];
        assert(r1[j] != SENTINEL) by {
            if r1[j] == SENTINEL {
                assert(r1.contains(SENTINEL));
            }
        }
        assert(r2[j] != SENTINEL) by {
            if r2[j] == SENTINEL {
                assert(r2.contains(SENTINEL));
            }
        }
        assert(s1[j] != s2[j]);
        assert((p + s1)[p.len() + j] != (p + s2)[p.len() + j]);
    }
}

/// The resolved module directory is exactly the four fragments with
/// one separator between each, whenever the first three are nonempty
/// and none of them already ends in a separator.
pub proof fn lemma_module_dir_exact(
    infra: Seq<u8>,
    env: Seq<u8>,
    region: Seq<u8>,
    module: Seq<u8>,
)
    requires
        infra.len() > 0,
        infra[infra.len() - 1] != SEPARATOR,
        env.len() > 0,
        env[env.len() - 1] != SEPARATOR,
        region.len() > 0,
        region[region.len() - 1] != SEPARATOR,
    ensures
        spec_module_dir(infra, env, region, module) == infra + seq![SEPARATOR] + env + seq![
            SEPARATOR,
        ] + region + seq![SEPARATOR] + module,
{
    let a = spec_join(infra, env);
    assert(a == infra + seq![SEPARATOR] + env);
    assert(a[a.len() - 1] == env[env.len() - 1]);
    let b = spec_join(a, region);
    assert(b == a + seq![SEPARATOR] + region);
    assert(b[b.len() - 1] == region[region.len() - 1]);
    assert(spec_module_dir(infra, env, region, module) == b + seq![SEPARATOR] + module);
    assert(b + seq![SEPARATOR] + module =~= infra + seq![SEPARATOR] + env + seq![SEPARATOR]
        + region + seq![SEPARATOR] + module);
}

/// A variable file lies directly under its module directory: whenever
/// the directory is nonempty, the path ends in a separator, the
/// basename, and the ".tfvars" extension.
pub proof fn lemma_var_file_suffix(dir: Seq<u8>, basename: Seq<u8>)
    requires
        dir.len() > 0,
    ensures
        ({
            let p = spec_var_file(dir, basename);
            let suffix = seq![SEPARATOR] + basename + varfile_extension();
            p.len() >= suffix.len() && p.skip(p.len() - suffix.len()) == suffix
        }),
{
    let p = spec_var_file(dir, basename);
    let suffix = seq![SEPARATOR] + basename + varfile_extension();
    if dir[dir.len() - 1] == SEPARATOR {
        assert(p == dir + (basename + varfile_extension()));
        assert(p.skip(p.len() - suffix.len()) =~= suffix);
    } else {
        assert(p == dir + seq![SEPARATOR] + (basename + varfile_extension()));
        assert(p.skip(p.len() - suffix.len()) =~= suffix);
    }
}

/// The byte string ".tfvars".
pub fn varfile_extension_bytes() -> (r: Vec<u8>)
    ensures
        r@ == varfile_extension(),
{
    let r: Vec<u8> = vec![46, 116, 102, 118, 97, 114, 115];
    assert(r@ =~= varfile_extension());
    r
}

/// The byte string ".toml".
pub fn state_extension_bytes() -> (r: Vec<u8>)
    ensures
        r@ == state_extension(),
{
    let r: Vec<u8> = vec![46, 116, 111, 109, 108];
    assert(r@ =~= state_extension());
    r
}

/// The byte string "environment".
pub fn environment_field_bytes() -> (r: Vec<u8>)
    ensures
        r@ == environment_field(),
{
    let r: Vec<u8> = vec![101, 110, 118, 105, 114, 111, 110, 109, 101, 110, 116];
    assert(r@ =~= environment_field());
    r
}

/// Joins two path fragments.
pub fn join_path(a: &Vec<u8>, b: &Vec<u8>) -> (r: Vec<u8>)
    ensures
        r@ == spec_join(a@, b@),
{
    let mut r = copy_bytes(a);
    if a.len() > 0 && a[a.len() - 1] != SEPARATOR {
        r.push(SEPARATOR);
        assert(r@ =~= a@ + seq![SEPARATOR]);
    }
    append_bytes(&mut r, b);
    r
}

/// Replaces every separator in a repository root by the sentinel
/// byte, making it usable as a file name.
pub fn sanitize_repo_root(root: &Vec<u8>) -> (r: Vec<u8>)
    ensures
        r@ == spec_sanitize(root@),
{
    let n = root.len();
    let mut r: Vec<u8> = Vec::new();
    let mut i: usize = 0;
    while i < n
        invariant
            n == root.len(),
            0 <= i <= n,
            r@.len() == i,
            forall|k: int| 0 <= k < i ==> r@[k] == spec_sanitize(root@)[k],
        decreases n - i,
    {
        let c = root[i];
        if c == SEPARATOR {
            r.push(SENTINEL);
        } else {
            r.push(c);
        }
        i = i + 1;
    }
    assert(r@ =~= spec_sanitize(root@));
    r
}

/// The state-file path used for the repository at `git_root`, under
/// the application's state directory.
pub fn get_repo_state_filepath(state_dir: &Vec<u8>, git_root: &Vec<u8>) -> (r: Vec<u8>)
    ensures
        r@ == spec_state_filepath(state_dir@, git_root@),
{
    let mut name = sanitize_repo_root(git_root);
    let ext = state_extension_bytes();
    append_bytes(&mut name, &ext);
    join_path(state_dir, &name)
}

/// Strips one trailing newline, as git's output carries one.
pub fn repo_root_from_git_output(out: &Vec<u8>) -> (r: Vec<u8>)
    ensures
        out@.len() > 0 && out@[out@.len() - 1] == NEWLINE ==> r@ == out@.take(out@.len() - 1),
        !(out@.len() > 0 && out@[out@.len() - 1] == NEWLINE) ==> r@ == out@,
{
    let mut r = copy_bytes(out);
    if r.len() > 0 && r[r.len() - 1] == NEWLINE {
        let _ = r.pop();
        assert(r@ =~= out@.take(out@.len() - 1));
    }
    r
}

/// The path of the variable file named `basename` inside the module
/// directory that `config` selects.  The environment is required: when
/// it was never chosen, resolution fails at once, naming the missing
/// field, and no path is built.
pub fn get_module_var_dir(config: &Config, basename: &Vec<u8>) -> (r: Result<Vec<u8>, ModuleError>)
    ensures
        match r {
            Ok(p) => {
                &&& config.environment matches Some(env)
                &&& p@ == spec_var_file(
                    spec_module_dir(config.infra_dir@, env@, config.region@, config.module@),
                    basename@,
                )
            },
            Err(e) => {
                &&& config.environment is None
                &&& e matches ModuleError::IncompleteConfig(field) && field@ == environment_field()
            },
        },
{
    match &config.environment {
        None => Err(ModuleError::IncompleteConfig(environment_field_bytes())),
        Some(env) => {
            let dir = join_path(
                &join_path(&join_path(&config.infra_dir, env), &config.region),
                &config.module,
            );
            let mut name = copy_bytes(basename);
            let ext = varfile_extension_bytes();
            append_bytes(&mut name, &ext);
            Ok(join_path(&dir, &name))
        },
    }
}

} // verus!
