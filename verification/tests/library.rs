use tfmod::bytestr::{bytes_eq, bytes_le};
use tfmod::cli::{render_command_line, terraform_args, var_file_basename, Commands};
use tfmod::config::Config;
use tfmod::error::ModuleError;
use tfmod::paths::{
    get_module_var_dir, get_repo_state_filepath, join_path, repo_root_from_git_output,
    sanitize_repo_root,
};
use tfmod::scan::{
    environment_candidates, get_dirnames_from_path, pick_environment, pick_region,
    region_candidates, DirEntry, RegionOutcome,
};

#[test]
fn default_config_values() {
    let c = Config::default();
    assert!(c.environment.is_none());
    assert_eq!(c.region, b"us-east-1".to_vec());
    assert_eq!(c.module, b"vpc".to_vec());
    assert_eq!(c.infra_dir, b"../../".to_vec());
}

#[test]
fn first_run_seeds_module_from_cwd() {
    let c = Config::first_run(b"myrepo".to_vec());
    assert!(c.environment.is_none());
    assert_eq!(c.region, b"us-east-1".to_vec());
    assert_eq!(c.module, b"myrepo".to_vec());
    assert_eq!(c.infra_dir, b"../../".to_vec());
}

#[test]
fn from_selections_keeps_all_fields() {
    let c = Config::from_selections(
        b"prod".to_vec(),
        b"eu-west-1".to_vec(),
        b"net".to_vec(),
        b"/infra".to_vec(),
    );
    assert_eq!(c.environment, Some(b"prod".to_vec()));
    assert_eq!(c.region, b"eu-west-1".to_vec());
    assert_eq!(c.module, b"net".to_vec());
    assert_eq!(c.infra_dir, b"/infra".to_vec());
}

#[test]
fn join_inserts_separator_only_when_needed() {
    assert_eq!(
        join_path(&b"/a".to_vec(), &b"b".to_vec()),
        b"/a/b".to_vec()
    );
    assert_eq!(
        join_path(&b"/a/".to_vec(), &b"b".to_vec()),
        b"/a/b".to_vec()
    );
    assert_eq!(join_path(&b"".to_vec(), &b"b".to_vec()), b"b".to_vec());
}

#[test]
fn sanitize_replaces_every_separator() {
    assert_eq!(
        sanitize_repo_root(&b"/home/user/repo".to_vec()),
        b"%home%user%repo".to_vec()
    );
    assert_eq!(sanitize_repo_root(&b"plain".to_vec()), b"plain".to_vec());
}

#[test]
fn state_filepath_exact() {
    let p = get_repo_state_filepath(&b"/var/state".to_vec(), &b"/home/user/repo".to_vec());
    assert_eq!(p, b"/var/state/%home%user%repo.toml".to_vec());
}

#[test]
fn state_filepaths_distinct_for_distinct_roots() {
    let dir = b"/var/state".to_vec();
    let p1 = get_repo_state_filepath(&dir, &b"/home/user/alpha".to_vec());
    let p2 = get_repo_state_filepath(&dir, &b"/home/user/beta".to_vec());
    assert_ne!(p1, p2);
    let p3 = get_repo_state_filepath(&dir, &b"/home/user".to_vec());
    let p4 = get_repo_state_filepath(&dir, &b"/home/user/".to_vec());
    assert_ne!(p3, p4);
}

#[test]
fn git_output_newline_is_stripped() {
    assert_eq!(
        repo_root_from_git_output(&b"/home/user/repo\n".to_vec()),
        b"/home/user/repo".to_vec()
    );
    assert_eq!(
        repo_root_from_git_output(&b"/home/user/repo".to_vec()),
        b"/home/user/repo".to_vec()
    );
    assert_eq!(repo_root_from_git_output(&b"".to_vec()), b"".to_vec());
}

#[test]
fn module_dir_is_exact_join() {
    let c = Config::from_selections(
        b"prod".to_vec(),
        b"us-east-1".to_vec(),
        b"vpc".to_vec(),
        b"/infra".to_vec(),
    );
    let p = get_module_var_dir(&c, &b"backend".to_vec()).unwrap();
    assert_eq!(p, b"/infra/prod/us-east-1/vpc/backend.tfvars".to_vec());
}

#[test]
fn missing_environment_is_incomplete_config() {
    let c = Config::first_run(b"vpc".to_vec());
    match get_module_var_dir(&c, &b"backend".to_vec()) {
        Err(ModuleError::IncompleteConfig(field)) => {
            assert_eq!(field, b"environment".to_vec());
        }
        _ => panic!("expected IncompleteConfig"),
    }
}

#[test]
fn var_file_suffixes() {
    let c = Config::from_selections(
        b"dev".to_vec(),
        b"eu-central-1".to_vec(),
        b"db".to_vec(),
        b"infra".to_vec(),
    );
    let backend = get_module_var_dir(&c, &b"backend".to_vec()).unwrap();
    assert!(backend.ends_with(b"/backend.tfvars"));
    let tf = get_module_var_dir(&c, &b"terraform".to_vec()).unwrap();
    assert!(tf.ends_with(b"/terraform.tfvars"));
}

fn entry(name: &[u8], is_dir: bool) -> DirEntry {
    DirEntry {
        name: name.to_vec(),
        is_dir,
    }
}

#[test]
fn dirnames_keep_only_directories() {
    let entries = vec![
        entry(b"prod", true),
        entry(b"README.md", false),
        entry(b"dev", true),
    ];
    let names = get_dirnames_from_path(&entries);
    assert_eq!(names, vec![b"prod".to_vec(), b"dev".to_vec()]);
}

#[test]
fn environment_candidates_exclude_reserved_sort_dedup() {
    let names = vec![
        b"prod".to_vec(),
        b"dev".to_vec(),
        b"terraform".to_vec(),
        b"dev".to_vec(),
    ];
    let items = environment_candidates(names, &Some(b"stage".to_vec()));
    assert_eq!(
        items,
        vec![b"stage".to_vec(), b"dev".to_vec(), b"prod".to_vec()]
    );
}

#[test]
fn environment_candidates_previous_not_repeated() {
    let names = vec![b"prod".to_vec(), b"dev".to_vec()];
    let items = environment_candidates(names, &Some(b"prod".to_vec()));
    assert_eq!(items, vec![b"prod".to_vec(), b"dev".to_vec()]);
}

#[test]
fn environment_candidates_without_previous() {
    let names = vec![b"prod".to_vec(), b"terraform".to_vec(), b"dev".to_vec()];
    let items = environment_candidates(names, &None);
    assert_eq!(items, vec![b"dev".to_vec(), b"prod".to_vec()]);
}

#[test]
fn region_candidates_previous_first() {
    let names = vec![b"us-west-2".to_vec(), b"us-east-1".to_vec()];
    let items = region_candidates(names, &b"eu-west-1".to_vec());
    assert_eq!(
        items,
        vec![
            b"eu-west-1".to_vec(),
            b"us-east-1".to_vec(),
            b"us-west-2".to_vec()
        ]
    );
}

#[test]
fn environment_pick_by_index() {
    let items = vec![b"dev".to_vec(), b"prod".to_vec()];
    assert_eq!(pick_environment(&items, Some(1)).unwrap(), b"prod".to_vec());
}

#[test]
fn environment_cancel_is_fatal() {
    let items = vec![b"dev".to_vec()];
    match pick_environment(&items, None) {
        Err(ModuleError::IncompleteConfig(field)) => {
            assert_eq!(field, b"environment".to_vec());
        }
        _ => panic!("expected IncompleteConfig"),
    }
}

#[test]
fn region_cancel_falls_back_to_text() {
    let items = vec![b"eu-west-1".to_vec(), b"us-east-1".to_vec()];
    match pick_region(&items, Some(1)) {
        RegionOutcome::Selected(v) => assert_eq!(v, b"us-east-1".to_vec()),
        _ => panic!("expected a selection"),
    }
    match pick_region(&items, None) {
        RegionOutcome::EnterText(d) => assert_eq!(d, b"eu-west-1".to_vec()),
        _ => panic!("expected the text fall-back"),
    }
}

#[test]
fn basenames_per_command() {
    assert_eq!(
        var_file_basename(&Commands::Init { interactive: None }).unwrap(),
        b"backend".to_vec()
    );
    assert!(var_file_basename(&Commands::Edit).is_none());
    assert_eq!(
        var_file_basename(&Commands::Plan).unwrap(),
        b"terraform".to_vec()
    );
    assert_eq!(
        var_file_basename(&Commands::Destroy).unwrap(),
        b"terraform".to_vec()
    );
}

#[test]
fn argument_templates_exact() {
    let vf = b"/i/p/r/m/backend.tfvars".to_vec();
    let init = terraform_args(&Commands::Init { interactive: None }, &vf).unwrap();
    assert_eq!(
        init,
        vec![
            b"init".to_vec(),
            b"-get=true".to_vec(),
            b"-force-copy".to_vec(),
            b"-backend-config".to_vec(),
            vf.clone(),
            b"-reconfigure".to_vec()
        ]
    );
    let plan = terraform_args(&Commands::Plan, &vf).unwrap();
    assert_eq!(
        plan,
        vec![
            b"plan".to_vec(),
            b"-var-file".to_vec(),
            vf.clone(),
            b"-out=./plan.plan".to_vec(),
            b"-lock-timeout=30s".to_vec()
        ]
    );
    let destroy = terraform_args(&Commands::Destroy, &vf).unwrap();
    assert_eq!(
        destroy,
        vec![b"destroy".to_vec(), b"-var-file".to_vec(), vf.clone()]
    );
    assert!(terraform_args(&Commands::Edit, &vf).is_none());
}

#[test]
fn rendered_line_is_space_joined() {
    let args = vec![b"plan".to_vec(), b"-var-file".to_vec(), b"x.tfvars".to_vec()];
    assert_eq!(
        render_command_line(&args),
        b"terraform plan -var-file x.tfvars".to_vec()
    );
    assert_eq!(render_command_line(&Vec::new()), b"terraform".to_vec());
}

#[test]
fn interactive_init_end_to_end() {
    // A fresh repository: no prior state, so the record starts from the
    // current directory's base name.
    let state = Config::first_run(b"vpc".to_vec());
    assert!(state.environment.is_none());

    // The infrastructure root holds prod/us-east-1/vpc.
    let env_names = vec![b"prod".to_vec()];
    let env_items = environment_candidates(env_names, &state.environment);
    assert_eq!(env_items, vec![b"prod".to_vec()]);
    let environment = pick_environment(&env_items, Some(0)).unwrap();
    assert_eq!(environment, b"prod".to_vec());

    let region_names = vec![b"us-east-1".to_vec()];
    let region_items = region_candidates(region_names, &state.region);
    assert_eq!(region_items, vec![b"us-east-1".to_vec()]);
    let region = match pick_region(&region_items, Some(0)) {
        RegionOutcome::Selected(v) => v,
        RegionOutcome::EnterText(d) => d,
    };

    let config = Config::from_selections(
        environment,
        region,
        b"vpc".to_vec(),
        b"/abs/infra".to_vec(),
    );
    assert_eq!(config.environment, Some(b"prod".to_vec()));
    assert_eq!(config.region, b"us-east-1".to_vec());
    assert_eq!(config.module, b"vpc".to_vec());
    assert_eq!(config.infra_dir, b"/abs/infra".to_vec());

    let basename = var_file_basename(&Commands::Init { interactive: Some(true) }).unwrap();
    let var_file = get_module_var_dir(&config, &basename).unwrap();
    assert_eq!(
        var_file,
        b"/abs/infra/prod/us-east-1/vpc/backend.tfvars".to_vec()
    );

    let args = terraform_args(&Commands::Init { interactive: Some(true) }, &var_file).unwrap();
    let line = render_command_line(&args);
    assert_eq!(
        line,
        b"terraform init -get=true -force-copy -backend-config /abs/infra/prod/us-east-1/vpc/backend.tfvars -reconfigure".to_vec()
    );
}

#[test]
fn byte_order_is_lexicographic() {
    assert!(bytes_le(&b"abc".to_vec(), &b"abd".to_vec()));
    assert!(!bytes_le(&b"abd".to_vec(), &b"abc".to_vec()));
    assert!(bytes_le(&b"ab".to_vec(), &b"abc".to_vec()));
    assert!(!bytes_le(&b"abc".to_vec(), &b"ab".to_vec()));
    assert!(bytes_le(&b"".to_vec(), &b"a".to_vec()));
    assert!(bytes_eq(&b"same".to_vec(), &b"same".to_vec()));
    assert!(!bytes_eq(&b"same".to_vec(), &b"sane".to_vec()));
}

#[test]
fn reserved_previous_still_heads_list() {
    let names = vec![b"prod".to_vec(), b"terraform".to_vec()];
    let items = environment_candidates(names, &Some(b"terraform".to_vec()));
    assert_eq!(items, vec![b"terraform".to_vec(), b"prod".to_vec()]);
}

#[test]
fn empty_scan_edge_cases() {
    assert_eq!(
        environment_candidates(Vec::new(), &None),
        Vec::<Vec<u8>>::new()
    );
    let items = region_candidates(Vec::new(), &b"us-east-1".to_vec());
    assert_eq!(items, vec![b"us-east-1".to_vec()]);
}
