use sigil_frontends::map_names::decode_struct_map_name;
use sigil_frontends::parser::struct_map_synth_name;

#[test]
fn synthesized_names_decode_to_var_dot_field() {
    let n = struct_map_synth_name("users", "balance");
    assert_eq!(n, "__fe_sm_5_users_balance");
    assert_eq!(decode_struct_map_name(&n), Some("users.balance".to_string()));
    let n = struct_map_synth_name("a_b", "c_d");
    assert_eq!(decode_struct_map_name(&n), Some("a_b.c_d".to_string()));
    let n = struct_map_synth_name("é", "x");
    assert_eq!(n, "__fe_sm_2_é_x");
    assert_eq!(decode_struct_map_name(&n), Some("é.x".to_string()));
}

#[test]
fn malformed_names_do_not_decode() {
    assert_eq!(decode_struct_map_name("balances"), None);
    assert_eq!(decode_struct_map_name("__fe_sm_x"), None);
    assert_eq!(decode_struct_map_name("__fe_sm_3_ab_c"), None);
    assert_eq!(decode_struct_map_name("__fe_sm_9_ab_c"), None);
    assert_eq!(decode_struct_map_name("__fe_sm__a_b"), None);
    assert_eq!(decode_struct_map_name("__fe_sm_1_é_x"), None);
    assert_eq!(decode_struct_map_name("__fe_sm_+1_a_b"), Some("a.b".to_string()));
}
