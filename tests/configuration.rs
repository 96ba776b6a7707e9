use mir_dump::configuration::{
    dump, dump_debug_info, dump_mir_info, dump_mir_proc, dump_show_statement_indices,
    dump_show_temp_variables, full_compilation, log_dir, Configuration,
};
use mir_dump::mir_dumper::should_dump_function;

#[test]
fn defaults_and_getters() {
    let config = Configuration::defaults();
    assert_eq!(log_dir(&config), "./log/");
    assert_eq!(dump_mir_proc(&config), None);
    assert!(dump_mir_info(&config));
    assert!(dump_show_temp_variables(&config));
    assert!(dump_show_statement_indices(&config));
    assert!(!dump_debug_info(&config));
    assert!(!mir_dump::configuration::test(&config));
    assert!(full_compilation(&config));
}

#[test]
fn dump_lists_every_setting() {
    let mut config = Configuration::defaults();
    config.dump_mir_proc = Some(String::from("foo"));
    config.test = true;
    assert_eq!(
        dump(&config),
        "LOG_DIR = ./log/\nDUMP_MIR_PROC = foo\nDUMP_MIR_INFO = true\n\
         DUMP_SHOW_TEMP_VARIABLES = true\nDUMP_SHOW_STATEMENT_INDICES = true\n\
         DUMP_DEBUG_INFO = false\nTEST = true\nFULL_COMPILATION = true\n"
    );
    assert_eq!(dump_mir_proc(&config), Some(String::from("foo")));
}

#[test]
fn function_filter() {
    let mut config = Configuration::defaults();
    assert!(should_dump_function(&config, "foo"));
    assert!(!should_dump_function(&config, "foo__spec"));
    assert!(should_dump_function(&config, "spec"));
    config.dump_mir_proc = Some(String::from("main"));
    assert!(should_dump_function(&config, "main"));
    assert!(!should_dump_function(&config, "foo"));
    assert!(!should_dump_function(&config, "mai"));
}
