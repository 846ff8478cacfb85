use wgpu_calc::cache::{Module, ModuleCache};
use wgpu_calc::coding::Shader;
use wgpu_calc::interface::BindGroupLayoutEntry;
use wgpu_calc::store::VariableStore;
use wgpu_calc::variable::VariableHandle;

fn handle(key: u64, size: u64) -> VariableHandle {
    VariableHandle::from_parts(key, Some("v"), size, [1, 1, 1])
}

#[test]
fn interning_twice_with_one_slot_leaves_one_record() {
    let mut store = VariableStore::new();
    assert_eq!(store.intern(handle(5, 16), 0), (0, true));
    assert_eq!(store.intern(handle(5, 16), 0), (0, false));
    assert_eq!(store.len(), 1);
    let record = store.get(0).unwrap();
    assert_eq!(record.variable.key, 5);
    assert_eq!(record.binds, vec![0, 0]);
    assert_eq!(record.buffer_index, 0);
}

#[test]
fn variables_with_equal_contents_and_different_identities_get_records_of_their_own() {
    let mut store = VariableStore::new();
    assert_eq!(store.intern(handle(1, 16), 0), (0, true));
    assert_eq!(store.intern(handle(2, 16), 0), (1, true));
    assert_eq!(store.intern(handle(1, 16), 3), (0, false));
    assert_eq!(store.len(), 2);
    assert_eq!(store.get(0).unwrap().binds, vec![0, 3]);
    assert_eq!(store.get(1).unwrap().binds, vec![0]);
    assert_eq!(store.get(1).unwrap().buffer_index, 1);
    assert!(store.get(2).is_none());
}

#[test]
fn a_record_keeps_the_handle_that_made_it() {
    let mut store = VariableStore::new();
    store.intern(handle(1, 16), 0);
    store.intern(handle(1, 64), 1);
    assert_eq!(store.get(0).unwrap().variable, handle(1, 16));
}

#[test]
fn position_finds_resident_variables_only() {
    let mut store = VariableStore::new();
    assert_eq!(store.position(&handle(1, 4)), None);
    store.intern(handle(9, 4), 0);
    store.intern(handle(1, 4), 0);
    assert_eq!(store.position(&handle(1, 4)), Some(1));
    assert_eq!(store.position(&handle(9, 4)), Some(0));
    assert_eq!(store.position(&handle(3, 4)), None);
}

#[test]
fn the_layout_entry_demands_the_size_of_the_variable() {
    let mut store = VariableStore::new();
    store.intern(handle(1, 36), 0);
    store.intern(handle(2, 0), 1);
    assert_eq!(
        store.get(0).unwrap().get_bind_group_layout_entry(4),
        BindGroupLayoutEntry {
            binding: 4,
            read_only: false,
            has_dynamic_offset: false,
            min_binding_size: Some(36),
        }
    );
    assert_eq!(
        store.get(1).unwrap().get_bind_group_layout_entry(0),
        BindGroupLayoutEntry {
            binding: 0,
            read_only: false,
            has_dynamic_offset: false,
            min_binding_size: None,
        }
    );
    assert_eq!(store.get(0).unwrap().to_buffer_descriptor().size, 36);
}

#[test]
fn a_module_numbers_its_entry_points_in_the_order_they_came() {
    let shader = Shader::from_content("source");
    let mut module = Module::new(&shader);
    assert!(module.entry_point.is_empty());
    assert_eq!(module.find_entry_point("add"), None);
    assert_eq!(module.add_entry_point("add"), 0);
    assert_eq!(module.add_entry_point("sub"), 1);
    assert_eq!(module.find_entry_point("sub"), Some(1));
    assert_eq!(module.find_entry_point("add"), Some(0));
    assert_eq!(module.find_entry_point("mul"), None);
    assert_eq!(module.add_entry_point("add"), 2);
    assert_eq!(module.find_entry_point("add"), Some(0));
}

#[test]
fn shaders_with_the_same_text_share_one_module() {
    let first = Shader::from_content("fn add() {} fn sub() {}");
    let same_text = Shader::from_content("fn add() {} fn sub() {}");
    let other = Shader::from_content("fn mul() {}");
    let mut cache = ModuleCache::new();

    assert_eq!(cache.register(&first, "add"), (0, 0));
    assert_eq!(cache.register(&same_text, "add"), (0, 0));
    assert_eq!(cache.register(&same_text, "sub"), (0, 1));
    assert_eq!(cache.register(&other, "mul"), (1, 0));
    assert_eq!(cache.register(&first, "sub"), (0, 1));
    assert_eq!(cache.register(&other, "add"), (1, 1));

    assert_eq!(cache.len(), 2);
    assert_eq!(cache.get(0).unwrap().entry_point, vec!["add".to_string(), "sub".to_string()]);
    assert_eq!(cache.get(1).unwrap().entry_point, vec!["mul".to_string(), "add".to_string()]);
    assert_eq!(cache.get(1).unwrap().shader.get_content(), "fn mul() {}");
    assert_eq!(cache.position(&same_text), Some(0));
    assert_eq!(cache.position(&Shader::from_content("unknown")), None);
    assert!(cache.get(2).is_none());
}
