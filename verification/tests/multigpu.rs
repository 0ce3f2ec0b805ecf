//! Devices for several nodes.

use smithay::backend::renderer::multigpu::{
    find_device, is_software, phd_matches_node, DeviceNodes, Error, VulkanBackend, VulkanDevice,
    RENDERING,
};
use smithay::backend::renderer::vulkan::error::{SwapFailure, VulkanError};

fn device(node: u64, renderer: &str) -> VulkanDevice<String> {
    VulkanDevice { node, software: false, renderer: renderer.to_string() }
}

fn nodes(list: &[VulkanDevice<String>]) -> Vec<u64> {
    list.iter().map(|d| d.node()).collect()
}

#[test]
fn physical_devices_drive_nodes() {
    let both = DeviceNodes { render: Some(1), primary: Some(2) };
    assert!(phd_matches_node(&both, 1) && phd_matches_node(&both, 2));
    assert!(!phd_matches_node(&both, 3));
    let none = DeviceNodes { render: None, primary: None };
    assert!(!phd_matches_node(&none, 0));
    let primary = DeviceNodes { render: None, primary: Some(2) };
    assert_eq!(find_device(&vec![none, primary, both], 2), Some(1));
    assert_eq!(find_device(&vec![none, primary, both], 1), Some(2));
    assert_eq!(find_device(&vec![none], 1), None);
    assert!(is_software(ash::vk::PhysicalDeviceType::CPU.as_raw()));
    assert!(!is_software(ash::vk::PhysicalDeviceType::DISCRETE_GPU.as_raw()));
}

#[test]
fn nodes_are_added_and_removed() {
    let mut backend: VulkanBackend<&str> = VulkanBackend::default();
    assert!(backend.needs_enumeration());
    let mut list: Vec<VulkanDevice<String>> = vec![];
    backend.start_enumeration(&mut list);
    assert!(!backend.needs_enumeration());
    backend.add_node(1, "first");
    assert!(backend.needs_enumeration());
    backend.set_allocator_flags(9);
    backend.add_node(2, "second");
    backend.start_enumeration(&mut list);
    // A node that is known stays as it is.
    backend.add_node(1, "other");
    assert!(!backend.needs_enumeration());
    let allocator = backend.allocator(1).unwrap();
    assert_eq!((allocator.gbm, allocator.flags), ("first", RENDERING));
    assert_eq!(backend.allocator(2).unwrap().flags, 9);
    backend.remove_node(7);
    assert!(!backend.needs_enumeration());
    backend.remove_node(1);
    assert!(backend.needs_enumeration());
    assert!(backend.allocator(1).is_none());
    // The nodes keep their order.
    backend.add_node(3, "third");
    backend.add_node(1, "again");
    assert_eq!(backend.new_nodes(&list), vec![2, 3, 1]);
    backend.remove_node(3);
    assert_eq!(backend.new_nodes(&list), vec![2, 1]);
    assert_eq!(VulkanBackend::<()>::identifier(), "gbm_vulkan");
}

#[test]
fn enumeration_keeps_renderers() {
    let mut backend: VulkanBackend<()> = VulkanBackend::default();
    for node in [3, 1, 2] {
        backend.add_node(node, ());
    }
    let mut list = vec![device(1, "old"), device(9, "gone"), device(2, "old")];
    backend.start_enumeration(&mut list);
    assert_eq!(nodes(&list), vec![1, 2]);
    assert_eq!(list[0].renderer(), "old");
    assert_eq!(backend.new_nodes(&list), vec![3]);
    list.push(device(3, "new"));
    backend.remove_node(1);
    backend.start_enumeration(&mut list);
    assert_eq!(nodes(&list), vec![2, 3]);
    assert!(backend.new_nodes(&list).is_empty());
}

#[test]
fn software_does_not_import_across_devices() {
    assert!(device(1, "x").can_do_cross_device_imports());
    let software = VulkanDevice { software: true, ..device(1, "x") };
    assert!(!software.can_do_cross_device_imports());
}

#[test]
fn errors_of_the_backend_are_classified() {
    assert_eq!(
        Error::Instance("no loader".to_string()).swap_failure(),
        SwapFailure::ContextLost
    );
    assert_eq!(Error::Vk(-1).swap_failure(), SwapFailure::ContextLost);
    assert_eq!(
        Error::Renderer(VulkanError::NoMemoryType).swap_failure(),
        SwapFailure::TemporaryFailure
    );
    assert_eq!(
        Error::Renderer(VulkanError::NoGraphicsQueue).swap_failure(),
        SwapFailure::ContextLost
    );
}
