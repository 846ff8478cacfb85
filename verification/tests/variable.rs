use wgpu_calc::errors::VariableError;
use wgpu_calc::interface::{BufferDescriptor, BufferUsage};
use wgpu_calc::variable::{Variable, VariableHandle};

struct Samples {
    name: Option<String>,
    bytes: Vec<u8>,
    extents: [u32; 3],
}

impl Variable for Samples {
    fn get_name(&self) -> Option<&str> {
        self.name.as_deref()
    }

    fn byte_size(&self) -> u64 {
        self.bytes.len() as u64
    }

    fn byte_data(&self) -> &[u8] {
        &self.bytes
    }

    fn read_data(&mut self, slice: &[u8]) {
        self.bytes = slice.to_vec();
    }

    fn extents(&self) -> [u32; 3] {
        self.dimension_sizes()
    }

    fn dimension_sizes(&self) -> [u32; 3] {
        self.extents
    }
}

fn storage_usage() -> BufferUsage {
    BufferUsage { storage: true, copy_dst: true, copy_src: true, map_read: false }
}

#[test]
fn a_handle_holds_what_the_variable_reports() {
    let samples = Samples { name: Some("samples".to_string()), bytes: vec![1, 2, 3, 4], extents: [4, 1, 1] };
    let handle = VariableHandle::new(11, &samples);
    assert_eq!(
        handle,
        VariableHandle { key: 11, name: Some("samples".to_string()), byte_size: 4, dimensions: [4, 1, 1] }
    );
    assert_eq!(handle.clone(), handle);
    assert_eq!(VariableHandle::from_parts(11, Some("samples"), 4, [4, 1, 1]), handle);
    assert_eq!(VariableHandle::from_parts(12, None, 0, [0, 0, 0]).name, None);
}

#[test]
fn handles_name_the_same_variable_by_their_key_alone() {
    let first = VariableHandle::from_parts(1, Some("a"), 4, [1, 1, 1]);
    let same_key = VariableHandle::from_parts(1, Some("b"), 8, [2, 1, 1]);
    let same_content = VariableHandle::from_parts(2, Some("a"), 4, [1, 1, 1]);
    assert!(first.same_variable(&same_key));
    assert!(!first.same_variable(&same_content));
}

#[test]
fn the_buffer_of_a_variable_is_storage_of_its_size_under_its_name() {
    let samples = Samples { name: Some("samples".to_string()), bytes: vec![0; 36], extents: [3, 3, 1] };
    let expected = BufferDescriptor {
        label: Some("samples".to_string()),
        size: 36,
        usage: storage_usage(),
        mapped_at_creation: false,
    };
    assert_eq!(samples.to_buffer_descriptor(), expected);
    assert_eq!(VariableHandle::new(1, &samples).to_buffer_descriptor(), expected);
    assert_eq!(BufferDescriptor::storage(Some("samples"), 36), expected);

    let unnamed = Samples { name: None, bytes: vec![], extents: [0, 0, 0] };
    assert_eq!(
        unnamed.to_buffer_descriptor(),
        BufferDescriptor { label: None, size: 0, usage: storage_usage(), mapped_at_creation: false }
    );
}

#[test]
fn a_staging_buffer_is_as_large_and_readable_by_the_host() {
    assert_eq!(
        BufferDescriptor::staging(36),
        BufferDescriptor {
            label: Some("Staging Buffer".to_string()),
            size: 36,
            usage: BufferUsage { storage: false, copy_dst: true, copy_src: false, map_read: true },
            mapped_at_creation: false,
        }
    );
}

#[test]
fn a_variable_plans_its_own_dispatch() {
    let grid = Samples { name: None, bytes: vec![], extents: [65535, 2, 1] };
    assert_eq!(grid.get_workgroup(), Some(Ok([65535, 2, 1])));
    let wide = Samples { name: None, bytes: vec![], extents: [1, 65536, 1] };
    assert_eq!(wide.get_workgroup(), Some(Err(VariableError::WorkgroupDimensionError(1))));
    let huge = Samples { name: None, bytes: vec![], extents: [4194241, 1, 1] };
    assert_eq!(huge.get_workgroup(), None);
}
