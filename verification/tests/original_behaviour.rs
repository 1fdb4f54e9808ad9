use pamm::launch::{preset_file_name, preset_launch_url, render_preset};
use pamm::paths::relative_path;
use pamm::templating::{
    DatestampReplacementStrategy, DeployedPackNameReplacementStrategy,
    ModLaunchParamReplacementStrategy, ScriptTemplateContext, ScriptTemplateReplacementStrategy,
};

fn context() -> ScriptTemplateContext<'static> {
    ScriptTemplateContext::new("core", "some/template", "-mod=foo")
}

#[test]
fn relative_path_sibling() {
    let from = "/repo/www/foo_pack_addons/@addon/sub";
    let to = "/repo/foo_pack_addons/@addon/sub/file.pbo";
    assert_eq!(
        relative_path(from, to).unwrap(),
        "../../../../foo_pack_addons/@addon/sub/file.pbo"
    );
}

#[test]
fn relative_path_same_dir() {
    let from = "/a/b";
    let to = "/a/b/file";
    assert_eq!(relative_path(from, to).unwrap(), "file");
}

#[test]
fn relative_path_one_up() {
    let from = "/a/b/c";
    let to = "/a/b/file";
    assert_eq!(relative_path(from, to).unwrap(), "../file");
}

#[test]
fn datestamp_leaves_script_unchanged_when_placeholder_is_missing() {
    let mut script = "unchanged".to_string();

    DatestampReplacementStrategy.apply(&context(), &mut script);

    assert_eq!(script, "unchanged");
}

#[test]
fn replaces_deployed_pack_placeholder() {
    let mut script = format!("pack {}", "{DEPLOYED_PACK}");

    DeployedPackNameReplacementStrategy.apply(&context(), &mut script);

    assert_eq!(script, "pack core");
}

#[test]
fn deployed_pack_name_leaves_script_unchanged_when_placeholder_is_missing() {
    let mut script = "unchanged".to_string();

    DeployedPackNameReplacementStrategy.apply(&context(), &mut script);

    assert_eq!(script, "unchanged");
}

#[test]
fn replaces_mod_launch_placeholder() {
    let mut script = format!("start {} end", "{MOD_LAUNCH_PARAM}");

    ModLaunchParamReplacementStrategy.apply(&context(), &mut script);

    assert_eq!(script, "start -mod=foo end");
}

#[test]
fn mod_launch_param_leaves_script_unchanged_when_placeholder_is_missing() {
    let mut script = "unchanged".to_string();

    ModLaunchParamReplacementStrategy.apply(&context(), &mut script);

    assert_eq!(script, "unchanged");
}

#[test]
fn clean_pack_names_pass_through() {
    assert_eq!(preset_file_name("main"), "pamm_main.txt");
    assert_eq!(preset_file_name("core-v1.2_a"), "pamm_core-v1.2_a.txt");
}

#[test]
fn awkward_pack_names_are_sanitised() {
    assert_eq!(preset_file_name("My Mods (v2)"), "pamm_My_Mods__v2_.txt");
    assert_eq!(preset_file_name("a/b"), "pamm_a_b.txt");
}

#[test]
fn renders_one_parameter_per_line_with_quoted_mods() {
    let rendered = render_preset(
        &["-name=FPArma".to_string()],
        &[
            r"Z:\mnt\games\FPArma\@CBA_A3".to_string(),
            r"Z:\mnt\games\FPArma\@ace".to_string(),
        ],
    );

    assert_eq!(
        rendered,
        "-noLauncher\n-name=FPArma\n-mod=\"Z:\\mnt\\games\\FPArma\\@CBA_A3\"\n-mod=\"Z:\\mnt\\games\\FPArma\\@ace\"\n"
    );
}

#[test]
fn renders_a_vanilla_preset_without_mods() {
    assert_eq!(render_preset(&[], &[]), "-noLauncher\n");
    assert_eq!(
        render_preset(&["-skipIntro".to_string()], &[]),
        "-noLauncher\n-skipIntro\n"
    );
}

#[test]
fn builds_the_preset_launch_url() {
    assert_eq!(
        preset_launch_url("pamm_core.txt"),
        "steam://run/107410//-par=pamm_core.txt/"
    );
}
