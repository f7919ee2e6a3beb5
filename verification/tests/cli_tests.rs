use ray_pipeline::cli::{
    get_cli_config, parse_u64, parse_usize, CliCommand, CliError, RawCliArgs, RawCommand,
};

fn render_args(config: &str, width: &str, output: &str, rays: &str, threads: &str) -> RawCliArgs {
    RawCliArgs {
        config_path: String::from(config),
        command: RawCommand::Render {
            width: String::from(width),
            output_path: String::from(output),
            rays: String::from(rays),
            threads: String::from(threads),
        },
    }
}

#[test]
fn wrong_config_extension_rejected() {
    let r = get_cli_config(RawCliArgs {
        config_path: String::from("scene.txt"),
        command: RawCommand::Generate,
    });
    match r {
        Err(CliError::ConfigPathExtension { path }) => assert_eq!(path, "scene.txt"),
        _ => panic!("expected a config-path extension error"),
    }
}

#[test]
fn wrong_config_extension_rejected_for_render() {
    let r = get_cli_config(render_args("scene.txt", "4", "image.ppm", "1", "1"));
    assert!(matches!(r, Err(CliError::ConfigPathExtension { .. })));
}

#[test]
fn wrong_output_extension_rejected() {
    let r = get_cli_config(render_args("scene.yaml", "4", "image.png", "1", "1"));
    match r {
        Err(CliError::OutputPathExtension { path }) => assert_eq!(path, "image.png"),
        _ => panic!("expected an output-path extension error"),
    }
}

#[test]
fn invalid_width_reported_first() {
    let r = get_cli_config(render_args("scene.yaml", "abc", "image.png", "xyz", "1"));
    match r {
        Err(CliError::InvalidValue { arg, value }) => {
            assert_eq!(arg, "width");
            assert_eq!(value, "abc");
        },
        _ => panic!("expected an invalid-value error"),
    }
}

#[test]
fn invalid_rays_reported() {
    let r = get_cli_config(render_args("scene.yaml", "4", "image.ppm", "ten", "1"));
    match r {
        Err(CliError::InvalidValue { arg, value }) => {
            assert_eq!(arg, "rays");
            assert_eq!(value, "ten");
        },
        _ => panic!("expected an invalid-value error"),
    }
}

#[test]
fn invalid_threads_reported() {
    let r = get_cli_config(render_args("scene.yaml", "4", "image.ppm", "1", "-2"));
    match r {
        Err(CliError::InvalidValue { arg, value }) => {
            assert_eq!(arg, "threads");
            assert_eq!(value, "-2");
        },
        _ => panic!("expected an invalid-value error"),
    }
}

#[test]
fn zero_threads_rejected() {
    let r = get_cli_config(render_args("scene.yaml", "4", "image.ppm", "1", "0"));
    match r {
        Err(CliError::InvalidValue { arg, value }) => {
            assert_eq!(arg, "threads");
            assert_eq!(value, "0");
        },
        _ => panic!("expected an invalid-value error"),
    }
}

#[test]
fn good_render_invocation_accepted() {
    let r = get_cli_config(render_args("scene.yaml", "640", "image.ppm", "100", "4"));
    match r {
        Ok(cfg) => {
            assert_eq!(cfg.config_path, "scene.yaml");
            match cfg.command {
                CliCommand::RENDER { width, output_path, num_of_rays, num_of_threads } => {
                    assert_eq!(width, 640);
                    assert_eq!(output_path, "image.ppm");
                    assert_eq!(num_of_rays, 100);
                    assert_eq!(num_of_threads, 4);
                },
                _ => panic!("expected a render command"),
            }
        },
        _ => panic!("expected success"),
    }
}

#[test]
fn generate_invocation_accepted() {
    let r = get_cli_config(RawCliArgs {
        config_path: String::from("scene.yaml"),
        command: RawCommand::Generate,
    });
    match r {
        Ok(cfg) => assert!(matches!(cfg.command, CliCommand::GENERATE)),
        _ => panic!("expected success"),
    }
}

#[test]
fn parse_u64_follows_the_integer_grammar() {
    assert_eq!(parse_u64(&String::from("0")), Some(0));
    assert_eq!(parse_u64(&String::from("123")), Some(123));
    assert_eq!(parse_u64(&String::from("18446744073709551615")), Some(u64::MAX));
    assert_eq!(parse_u64(&String::from("+5")), Some(5));
    assert_eq!(parse_u64(&String::from("+0")), Some(0));
    assert_eq!(parse_u64(&String::from("")), None);
    assert_eq!(parse_u64(&String::from("+")), None);
    assert_eq!(parse_u64(&String::from("++5")), None);
    assert_eq!(parse_u64(&String::from("-5")), None);
    assert_eq!(parse_u64(&String::from("12a")), None);
    assert_eq!(parse_u64(&String::from("18446744073709551616")), None);
}

#[test]
fn parse_usize_bounds() {
    assert_eq!(parse_usize(&String::from("8")), Some(8));
    assert_eq!(parse_usize(&String::from("notanumber")), None);
}
