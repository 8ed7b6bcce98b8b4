use virt_manager::command::{parse_user_input, Command, Dispatch};
use virt_manager::vm::{
    find_vm, image_create_args, installed_by_run, iso_path, kvm_enabled, normalize_name,
    vm_directory, VmDetails,
};

fn accepted(line: &str) -> (Command, Option<String>) {
    match parse_user_input(line) {
        Dispatch::Accepted(inv) => (inv.command, inv.argument),
        _ => panic!("not accepted: {line}"),
    }
}

#[test]
fn recognises_each_command() {
    assert_eq!(accepted("help").0, Command::Help);
    assert_eq!(accepted("version").0, Command::Version);
    assert_eq!(accepted("dusage").0, Command::DiskUsage);
    assert_eq!(accepted("list").0, Command::List);
    assert_eq!(accepted("start").0, Command::Start);
    assert_eq!(accepted("create").0, Command::Create);
    assert_eq!(accepted("delete").0, Command::Delete);
    assert_eq!(accepted("quit").0, Command::Quit);
}

#[test]
fn argument_is_second_word() {
    assert_eq!(accepted("  start \t vm1  extra").1, Some("vm1".to_string()));
    assert_eq!(accepted("delete").1, None);
}

#[test]
fn blank_and_unsupported_lines() {
    assert!(matches!(parse_user_input(""), Dispatch::Blank));
    assert!(matches!(parse_user_input(" \t "), Dispatch::Blank));
    assert!(matches!(parse_user_input("Help"), Dispatch::Unsupported));
    assert!(matches!(parse_user_input("helpme now"), Dispatch::Unsupported));
}

fn vm(kvm: bool, os_installed: bool) -> VmDetails {
    VmDetails { name: "arch".to_string(), smp: 4, ram: 16, kvm, os_installed }
}

#[test]
fn describe_lists_settings() {
    let v = VmDetails { name: "deb".to_string(), smp: 2, ram: 128, kvm: true, os_installed: false };
    assert_eq!(
        v.describe(),
        "Name: deb | Smp: 2 vcpus | Ram: 128GB | Kvm: true | Os installed: false"
    );
    let v = VmDetails { name: "x".to_string(), smp: 0, ram: 255, kvm: false, os_installed: true };
    assert_eq!(v.describe(), "Name: x | Smp: 0 vcpus | Ram: 255GB | Kvm: false | Os installed: true");
}

#[test]
fn qemu_args_for_fresh_vm() {
    let args = vm(true, false).qemu_args("/h/.virt-manager/arch");
    assert_eq!(
        args,
        vec![
            "-enable-kvm",
            "-cdrom",
            "/h/.virt-manager/arch/arch.iso",
            "-m",
            "16G",
            "-smp",
            "4",
            "-boot",
            "menu=on",
            "-drive",
            "file=/h/.virt-manager/arch/image.img",
            "-cpu",
            "host",
            "-device",
            "virtio-vga-gl",
            "-display",
            "sdl,gl=on",
        ]
    );
}

#[test]
fn qemu_args_for_installed_vm_without_kvm() {
    let args = vm(false, true).qemu_args("/d");
    assert_eq!(args[0], "-m");
    assert_eq!(args.len(), 14);
}

#[test]
fn paths_and_image_args() {
    assert_eq!(vm_directory("/p", "vm"), "/p/vm");
    assert_eq!(iso_path("/p/vm", "vm"), "/p/vm/vm.iso");
    assert_eq!(
        image_create_args("/p/vm/image.img", "20"),
        vec!["create", "-f", "qcow2", "/p/vm/image.img", "20G"]
    );
}

#[test]
fn kvm_answers() {
    assert!(kvm_enabled(""));
    assert!(kvm_enabled("Y"));
    assert!(kvm_enabled("y"));
    assert!(!kvm_enabled("n"));
    assert!(!kvm_enabled("yes"));
}

#[test]
fn install_detected_by_size_change() {
    assert!(installed_by_run(10, 20, false));
    assert!(!installed_by_run(10, 10, false));
    assert!(!installed_by_run(10, 20, true));
}

#[test]
fn find_vm_by_name() {
    let vms = vec![vm(true, true), VmDetails { name: "deb".to_string(), ..vm(false, false) }];
    assert_eq!(find_vm(&vms, "deb"), Some(1));
    assert_eq!(find_vm(&vms, "arch"), Some(0));
    assert_eq!(find_vm(&vms, "none"), None);
}

#[test]
fn names_are_trimmed_and_lowered() {
    assert_eq!(normalize_name("  MyVM \n"), "myvm");
}
