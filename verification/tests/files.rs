use yk_fxo_disasm::batch::{BatchReport, Failure};
use yk_fxo_disasm::files::{path_to_shader_name, YkFileKind};

#[test]
fn the_shader_name_is_what_stands_before_the_first_dot() {
    assert_eq!(path_to_shader_name("sd_o1dzt_m.fxo"), "sd_o1dzt_m");
    assert_eq!(path_to_shader_name("skin.vs.fxo"), "skin");
    assert_eq!(path_to_shader_name("a."), "a");
    assert_eq!(path_to_shader_name(".hidden"), "");
    assert_eq!(path_to_shader_name("."), "");
    assert_eq!(path_to_shader_name("größe.pso"), "größe");
    assert_eq!(path_to_shader_name("影.vso"), "影");
}

#[test]
fn the_extension_tells_what_a_file_holds() {
    assert_eq!(YkFileKind::of("skin.fxo"), Some(YkFileKind::FXO));
    assert_eq!(YkFileKind::of("skin.vso"), Some(YkFileKind::VSO));
    assert_eq!(YkFileKind::of("skin.pso"), Some(YkFileKind::PSO));
    assert_eq!(YkFileKind::of(".fxo"), Some(YkFileKind::FXO));
    assert_eq!(YkFileKind::of("a.vso.pso"), Some(YkFileKind::PSO));
    assert_eq!(YkFileKind::of("影.fxo"), Some(YkFileKind::FXO));
}

#[test]
fn other_names_hold_nothing_known() {
    for name in ["", "fxo", "skin.fxo.bak", "skin.FXO", "skin.fx", "skin.fxoo", "skin", "xo", "."] {
        assert_eq!(YkFileKind::of(name), None, "{}", name);
    }
}

fn name(s: &str) -> String {
    s.to_string()
}

#[test]
fn the_summary_of_a_run_without_files() {
    let report = BatchReport::new();
    assert!(report.successes.is_empty());
    assert!(report.failures.is_empty());
    assert_eq!(report.summary(), "\n\nSUMMARY\nSuccesses: 0\n\n\nFailures:\n");
}

#[test]
fn the_summary_lists_what_went_through() {
    let mut report = BatchReport::new();
    report.succeeded(name("b.fxo"));
    report.succeeded(name("a.fxo"));
    assert_eq!(report.successes, vec![name("b.fxo"), name("a.fxo")]);
    assert_eq!(report.summary(), "\n\nSUMMARY\nSuccesses: 2\n\nb.fxo\na.fxo\n\nFailures:\n");
}

#[test]
fn the_summary_shows_each_message_once_with_its_files() {
    let mut report = BatchReport::new();
    report.failed(name("couldn't parse fxo file"), name("a.fxo"));
    report.succeeded(name("b.fxo"));
    report.failed(name("couldn't compile vertex shader"), name("c.fxo"));
    report.failed(name("couldn't parse fxo file"), name("d.fxo"));
    report.failed(name("Unknown Source of Error"), name("e.fxo"));
    report.failed(name("couldn't compile vertex shader"), name("f.fxo"));
    report.failed(name("couldn't parse fxo file"), name("g.fxo"));
    assert_eq!(
        report.failures[1],
        Failure { message: name("couldn't compile vertex shader"), file_name: name("c.fxo") }
    );
    assert_eq!(
        report.summary(),
        "\n\nSUMMARY\nSuccesses: 1\n\nb.fxo\n\nFailures:\n\
         \ncouldn't parse fxo file\na.fxo\nd.fxo\ng.fxo\n\
         \ncouldn't compile vertex shader\nc.fxo\nf.fxo\n\
         \nUnknown Source of Error\ne.fxo\n"
    );
}

#[test]
fn a_file_that_failed_twice_is_listed_twice() {
    let mut report = BatchReport::new();
    report.failed(name("m"), name("a"));
    report.failed(name("m"), name("a"));
    assert_eq!(report.summary(), "\n\nSUMMARY\nSuccesses: 0\n\n\nFailures:\n\nm\na\na\n");
}

#[test]
fn many_successes_are_counted_in_decimal() {
    let mut report = BatchReport::new();
    let mut expected = String::from("\n\nSUMMARY\nSuccesses: 123\n\n");
    for i in 0..123 {
        report.succeeded(format!("{}.fxo", i));
        expected.push_str(&format!("{}.fxo\n", i));
    }
    expected.push_str("\nFailures:\n");
    assert_eq!(report.summary(), expected);
}
