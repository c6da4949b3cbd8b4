use data_pipeline::recipe_config::{
    ConfigError, FormatFile, OutputConfig, RecipeConfig, SourceConfig, StepConfig,
};
use data_pipeline::multi_extract::ExtractError;
use data_pipeline::pipeline::{Pipeline, PipelineStats};
use data_pipeline::registry::{FilterFn, TransformFn};
use data_pipeline::user::User;

fn user(name: &str, first: &str) -> User {
    User {
        username: name.to_string(),
        identifier: "1".to_string(),
        first_name: first.to_string(),
        last_name: "Doe".to_string(),
    }
}

fn config(steps: &[(&str, &str)]) -> RecipeConfig {
    RecipeConfig {
        name: "run".to_string(),
        source: SourceConfig { format: FormatFile::CSV, path: vec!["a.csv".to_string()] },
        steps: steps
            .iter()
            .map(|(a, v)| StepConfig { action: a.to_string(), value: v.to_string() })
            .collect(),
        output: OutputConfig { format: FormatFile::SQLITE, path: "out.db".to_string() },
    }
}

fn semi_text() -> Vec<u8> {
    b"username;identifier;first_name;last_name\nalice;1;Alice;A\nbo;2;Bob;B\ncarol;3;carol;C\n".to_vec()
}

#[test]
fn names_resolve() {
    assert_eq!(TransformFn::from_str("generate_user"), Some(TransformFn::GenerateUser));
    assert_eq!(TransformFn::from_str("capitalize"), Some(TransformFn::Capitalize));
    assert_eq!(TransformFn::from_str("lowercase"), Some(TransformFn::Lowercase));
    assert_eq!(TransformFn::from_str("upper"), None);
    assert_eq!(FilterFn::from_str("is_valid"), Some(FilterFn::IsValid));
    assert_eq!(FilterFn::from_str("is_invalid"), None);
}

#[test]
fn capitalize_and_lowercase_first_names() {
    let p = Pipeline { data: vec![user("alice", "Alice"), user("bob", "bÉ")], stats: PipelineStats::new() };
    let up = TransformFn::Capitalize.apply_to_user(p);
    assert_eq!(up.data[0].first_name, "ALICE");
    assert_eq!(up.data[1].first_name, "BÉ");
    assert_eq!(up.data[1].username, "bob");
    let down = TransformFn::Lowercase.apply_to_user(up);
    assert_eq!(down.data[0].first_name, "alice");
    assert_eq!(down.data[1].first_name, "bé");
    assert_eq!(down.stats.total_transformed, 2);
}

#[test]
fn is_valid_filter_keeps_valid_users() {
    let p = Pipeline {
        data: vec![user("alice", "A"), user("ab", "B"), user("", "C"), user("carol", "D")],
        stats: PipelineStats::new(),
    };
    let kept = FilterFn::IsValid.apply_to_user(p);
    let names: Vec<&str> = kept.data.iter().map(|u| u.username.as_str()).collect();
    assert_eq!(names, vec!["alice", "carol"]);
    assert_eq!(kept.stats.total_filtered, 2);
}

#[test]
fn execute_runs_all_steps() {
    let c = config(&[("transform", "generate_user"), ("filter", "is_valid"), ("transform", "capitalize")]);
    let p = c.execute(&[semi_text()]).unwrap();
    let names: Vec<&str> = p.data.iter().map(|u| u.username.as_str()).collect();
    assert_eq!(names, vec!["alice", "carol"]);
    assert_eq!(p.data[1].first_name, "CAROL");
    assert_eq!(p.stats.total_extracted, 3);
    assert_eq!(p.stats.total_filtered, 2);
}

#[test]
fn execute_passes_unknown_later_steps_through() {
    let c = config(&[("transform", "generate_user"), ("filter", "nope"), ("sort", "x"), ("transform", "nope")]);
    let p = c.execute(&[semi_text()]).unwrap();
    assert_eq!(p.data.len(), 3);
    assert_eq!(p.data[2].first_name, "carol");
}

#[test]
fn execute_without_steps_fails() {
    assert_eq!(config(&[]).execute(&[semi_text()]).unwrap_err(), ConfigError::NoSteps);
}

#[test]
fn execute_with_unknown_first_transform_fails() {
    let c = config(&[("transform", "frobnicate")]);
    assert_eq!(c.execute(&[semi_text()]).unwrap_err(), ConfigError::UnknownTransform("frobnicate".to_string()));
}

#[test]
fn execute_without_sources_fails() {
    let c = config(&[("transform", "generate_user")]);
    assert_eq!(c.execute(&[]).unwrap_err(), ConfigError::Extract(ExtractError::NoSources));
}
