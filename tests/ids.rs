use graph_process_manager_loggers::ids::{
    decimal_string, get_anchor_id, get_filtration_id, get_node_id, get_step_id,
};

#[test]
fn anchor_id_has_prefix_tag_and_number() {
    assert_eq!(get_anchor_id("proc", 3), "proc_a3");
}

#[test]
fn node_id_of_zero() {
    assert_eq!(get_node_id("x", 0), "x_n0");
}

#[test]
fn filtration_id_with_several_digits() {
    assert_eq!(get_filtration_id("g", 120), "g_f120");
}

#[test]
fn step_id_names_both_ends() {
    assert_eq!(get_step_id("p", 12, 7), "p_s_12_7");
}

#[test]
fn step_id_with_empty_prefix() {
    assert_eq!(get_step_id("", 1, 10), "_s_1_10");
}

#[test]
fn decimal_of_largest_u32() {
    assert_eq!(decimal_string(u32::MAX), "4294967295");
    assert_eq!(decimal_string(0), "0");
    assert_eq!(decimal_string(1000), "1000");
}
