//! The command surface and the terraform invocations it maps to.

use vstd::prelude::*;
use crate::bytestr::append_bytes;
use crate::bytestr::copy_bytes;
use crate::scan::views;

verus! {

/// The space byte.
pub const SPACE: u8 = 32;

/// The parsed command line: exactly one subcommand per invocation.
pub struct Cli {
    /// The selected subcommand.
    pub command: Commands,
}

/// The four subcommands.
pub enum Commands {
    /// Initialise the module's backend; optionally reselect the
    /// configuration interactively first.
    Init {
        /// Set when the interactive flag was given.
        interactive: Option<bool>,
    },
    /// Reselect and persist the configuration; no terraform call.
    Edit,
    /// Produce a plan for the selected module.
    Plan,
    /// Destroy the selected module.
    Destroy,
}

/// The word "terraform", with which every printed command line starts.
pub open spec fn terraform_word() -> Seq<u8> {
    seq![116u8, 101u8, 114u8, 114u8, 97u8, 102u8, 111u8, 114u8, 109u8]
}

/// The variable-file basename "backend", used by `init`.
pub open spec fn backend_basename() -> Seq<u8> {
    seq![98u8, 97u8, 99u8, 107u8, 101u8, 110u8, 100u8]
}

/// The variable-file basename "terraform", used by `plan` and
/// `destroy`.
pub open spec fn terraform_basename() -> Seq<u8> {
    terraform_word()
}

/// The arguments of `terraform init`: "init -get=true -force-copy
/// -backend-config <var_file> -reconfigure".
pub open spec fn spec_init_args(var_file: Seq<u8>) -> Seq<Seq<u8>> {
    seq![
        seq![105u8, 110u8, 105u8, 116u8],
        seq![45u8, 103u8, 101u8, 116u8, 61u8, 116u8, 114u8, 117u8, 101u8],
        seq![45u8, 102u8, 111u8, 114u8, 99u8, 101u8, 45u8, 99u8, 111u8, 112u8, 121u8],
        seq![
            45u8, 98u8, 97u8, 99u8, 107u8, 101u8, 110u8, 100u8, 45u8, 99u8, 111u8, 110u8, 102u8,
            105u8, 103u8,
        ],
        var_file,
        seq![45u8, 114u8, 101u8, 99u8, 111u8, 110u8, 102u8, 105u8, 103u8, 117u8, 114u8, 101u8],
    ]
}

/// The arguments of `terraform plan`: "plan -var-file <var_file>
/// -out=./plan.plan -lock-timeout=30s".
pub open spec fn spec_plan_args(var_file: Seq<u8>) -> Seq<Seq<u8>> {
    seq![
        seq![112u8, 108u8, 97u8, 110u8],
        seq![45u8, 118u8, 97u8, 114u8, 45u8, 102u8, 105u8, 108u8, 101u8],
        var_file,
        seq![
            45u8, 111u8, 117u8, 116u8, 61u8, 46u8, 47u8, 112u8, 108u8, 97u8, 110u8, 46u8, 112u8,
            108u8, 97u8, 110u8,
        ],
        seq![
            45u8, 108u8, 111u8, 99u8, 107u8, 45u8, 116u8, 105u8, 109u8, 101u8, 111u8, 117u8,
            116u8, 61u8, 51u8, 48u8, 115u8,
        ],
    ]
}

/// The arguments of `terraform destroy`: "destroy -var-file
/// <var_file>".
pub open spec fn spec_destroy_args(var_file: Seq<u8>) -> Seq<Seq<u8>> {
    seq![
        seq![100u8, 101u8, 115u8, 116u8, 114u8, 111u8, 121u8],
        seq![45u8, 118u8, 97u8, 114u8, 45u8, 102u8, 105u8, 108u8, 101u8],
        var_file,
    ]
}

/// The full line printed before the invocation: the word "terraform"
/// and each argument, separated by single spaces.
pub open spec fn spec_command_line(args: Seq<Seq<u8>>) -> Seq<u8>
    decreases args.len(),
{
    if args.len() == 0 {
        terraform_word()
    } else {
        spec_command_line(args.drop_last()) + seq![SPACE] + args.last()
    }
}

/// The byte string "terraform".
pub fn terraform_word_bytes() -> (r: Vec<u8>)
    ensures
        r@ == terraform_word(),
{
    let r: Vec<u8> = vec![116, 101, 114, 114, 97, 102, 111, 114, 109];
    assert(r@ =~= terraform_word());
    r
}

/// The variable-file basename that a subcommand reads: "backend" for
/// `init`, "terraform" for `plan` and `destroy`; `edit` invokes no
/// terraform and needs none.
pub fn var_file_basename(command: &Commands) -> (r: Option<Vec<u8>>)
    ensures
        match command {
            Commands::Init { .. } => r matches Some(b) && b@ == backend_basename(),
            Commands::Edit => r is None,
            Commands::Plan => r matches Some(b) && b@ == terraform_basename(),
            Commands::Destroy => r matches Some(b) && b@ == terraform_basename(),
        },
{
    match command {
        Commands::Init { .. } => {
            let b: Vec<u8> = vec![98, 97, 99, 107, 101, 110, 100];
            assert(b@ =~= backend_basename());
            Some(b)
        },
        Commands::Edit => None,
        Commands::Plan => Some(terraform_word_bytes()),
        Commands::Destroy => Some(terraform_word_bytes()),
    }
}

/// The argument list handed to terraform for a subcommand, with the
/// resolved variable-file path substituted into its fixed template;
/// `edit` maps to no invocation.
pub fn terraform_args(command: &Commands, var_file: &Vec<u8>) -> (r: Option<Vec<Vec<u8>>>)
    ensures
        match command {
            Commands::Init { .. } => r matches Some(a) && views(a@) == spec_init_args(var_file@),
            Commands::Edit => r is None,
            Commands::Plan => r matches Some(a) && views(a@) == spec_plan_args(var_file@),
            Commands::Destroy => r matches Some(a) && views(a@) == spec_destroy_args(var_file@),
        },
{
    match command {
        Commands::Init { .. } => {
            let mut a: Vec<Vec<u8>> = Vec::new();
            a.push(vec![105, 110, 105, 116]);
            a.push(vec![45, 103, 101, 116, 61, 116, 114, 117, 101]);
            a.push(vec![45, 102, 111, 114, 99, 101, 45, 99, 111, 112, 121]);
            a.push(vec![45, 98, 97, 99, 107, 101, 110, 100, 45, 99, 111, 110, 102, 105, 103]);
            a.push(copy_bytes(var_file));
            a.push(vec![45, 114, 101, 99, 111, 110, 102, 105, 103, 117, 114, 101]);
            assert(views(a@) =~= spec_init_args(var_file@));
            Some(a)
        },
        Commands::Edit => None,
        Commands::Plan => {
            let mut a: Vec<Vec<u8>> = Vec::new();
            a.push(vec![112, 108, 97, 110]);
            a.push(vec![45, 118, 97, 114, 45, 102, 105, 108, 101]);
            a.push(copy_bytes(var_file));
            a.push(vec![45, 111, 117, 116, 61, 46, 47, 112, 108, 97, 110, 46, 112, 108, 97, 110]);
            a.push(
                vec![45, 108, 111, 99, 107, 45, 116, 105, 109, 101, 111, 117, 116, 61, 51, 48, 115],
            );
            assert(views(a@) =~= spec_plan_args(var_file@));
            Some(a)
        },
        Commands::Destroy => {
            let mut a: Vec<Vec<u8>> = Vec::new();
            a.push(vec![100, 101, 115, 116, 114, 111, 121]);
            a.push(vec![45, 118, 97, 114, 45, 102, 105, 108, 101]);
            a.push(copy_bytes(var_file));
            assert(views(a@) =~= spec_destroy_args(var_file@));
            Some(a)
        },
    }
}

/// The line printed to standard output before the invocation, as an
/// audit trail: "terraform", then every argument, space-separated.
pub fn render_command_line(args: &Vec<Vec<u8>>) -> (r: Vec<u8>)
    ensures
        r@ == spec_command_line(views(args@)),
{
    let mut line = terraform_word_bytes();
    let n = args.len();
    let mut i: usize = 0;
    proof {
        assert(views(args@).take(0) =~= Seq::<Seq<u8>>::empty());
    }
    while i < n
        invariant
            n == args.len(),
            0 <= i <= n,
            line@ == spec_command_line(views(args@).take(i as int)),
        decreases n - i,
    {
        let ghost prev = line@;
        line.push(SPACE);
        append_bytes(&mut line, &args[i]);
        proof {
            let t = views(args@).take(i as int + 1);
            assert(t.drop_last() =~= views(args@).take(i as int));
            assert(t.last() == views(args@)[i as int]);
            assert(line@ =~= prev + seq![SPACE] + views(args@)[i as int]);
        }
        i = i + 1;
    }
    proof {
        assert(views(args@).take(n as int) =~= views(args@));
    }
    line
}

} // verus!
