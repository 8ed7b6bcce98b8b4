//! Virtual machines: their settings, how they are shown, and the arguments
//! that start them.

use vstd::prelude::*;
use crate::text::{chars_of, same_chars, string_of, trim, trim_chars};

verus! {

/// The settings of one virtual machine.
pub struct VmDetails {
    pub name: String,
    /// Virtual CPUs.
    pub smp: u8,
    /// Memory in GB.
    pub ram: u8,
    pub kvm: bool,
    pub os_installed: bool,
}

/// The decimal digit for `d`.
pub open spec fn digit(d: nat) -> char {
    if d == 0 { '0' } else if d == 1 { '1' } else if d == 2 { '2' } else if d == 3 { '3' }
    else if d == 4 { '4' } else if d == 5 { '5' } else if d == 6 { '6' } else if d == 7 { '7' }
    else if d == 8 { '8' } else { '9' }
}

/// `n` written in decimal, without leading zeros.
pub open spec fn decimal(n: nat) -> Seq<char>
    decreases n,
{
    if n < 10 {
        seq![digit(n)]
    } else {
        decimal(n / 10).push(digit(n % 10))
    }
}

/// `b` written as Rust writes a `bool`.
pub open spec fn bool_text(b: bool) -> Seq<char> {
    if b { "true"@ } else { "false"@ }
}

/// The one-line description of a virtual machine with these settings.
pub open spec fn description(name: Seq<char>, smp: u8, ram: u8, kvm: bool, os_installed: bool) -> Seq<char> {
    "Name: "@ + name + " | Smp: "@ + decimal(smp as nat) + " vcpus | Ram: "@ + decimal(ram as nat)
        + "GB | Kvm: "@ + bool_text(kvm) + " | Os installed: "@ + bool_text(os_installed)
}

fn digit_char(d: u8) -> (c: char)
    requires
        d < 10,
    ensures
        c == digit(d as nat),
{
    if d == 0 { '0' } else if d == 1 { '1' } else if d == 2 { '2' } else if d == 3 { '3' }
    else if d == 4 { '4' } else if d == 5 { '5' } else if d == 6 { '6' } else if d == 7 { '7' }
    else if d == 8 { '8' } else { '9' }
}

/// `n` in decimal.
pub fn decimal_u8(n: u8) -> (r: String)
    ensures
        r@ == decimal(n as nat),
{
    let mut v: Vec<char> = Vec::new();
    if n >= 100 {
        v.push(digit_char(n / 100));
    }
    if n >= 10 {
        v.push(digit_char((n / 10) % 10));
    }
    v.push(digit_char(n % 10));
    proof {
        let m = n as nat;
        if m >= 100 {
            assert(m / 10 >= 10);
            assert((m / 10) / 10 == m / 100);
            assert(decimal(m) == decimal(m / 10).push(digit(m % 10)));
            assert(decimal(m / 10) == decimal(m / 100).push(digit((m / 10) % 10)));
            assert(decimal(m / 100) == seq![digit(m / 100)]);
            assert(v@ =~= decimal(m));
        } else if m >= 10 {
            assert(decimal(m) == decimal(m / 10).push(digit(m % 10)));
            assert(decimal(m / 10) == seq![digit(m / 10)]);
            assert(v@ =~= decimal(m));
        } else {
            assert(m % 10 == m);
            assert(decimal(m) == seq![digit(m)]);
            assert(v@ =~= decimal(m));
        }
    }
    string_of(&v)
}

fn bool_string(b: bool) -> (r: &'static str)
    ensures
        r@ == bool_text(b),
{
    if b { "true" } else { "false" }
}

impl VmDetails {
    /// The one-line description: name, virtual CPUs, memory, whether KVM is
    /// on and whether an operating system is installed.
    pub fn describe(&self) -> (r: String)
        ensures
            r@ == description(self.name@, self.smp, self.ram, self.kvm, self.os_installed),
    {
        let mut r = String::from_str("Name: ");
        r.append(self.name.as_str());
        r.append(" | Smp: ");
        r.append(decimal_u8(self.smp).as_str());
        r.append(" vcpus | Ram: ");
        r.append(decimal_u8(self.ram).as_str());
        r.append("GB | Kvm: ");
        r.append(bool_string(self.kvm));
        r.append(" | Os installed: ");
        r.append(bool_string(self.os_installed));
        r
    }
}

/// The views of a list of strings.
pub open spec fn views(v: Seq<String>) -> Seq<Seq<char>> {
    v.map_values(|s: String| s@)
}

fn push_view(v: &mut Vec<String>, s: String)
    ensures
        views(final(v)@) == views(old(v)@).push(s@),
{
    let ghost before = v@;
    v.push(s);
    assert(views(v@) =~= views(before).push(s@));
}

fn push_text(v: &mut Vec<String>, s: &str)
    ensures
        views(final(v)@) == views(old(v)@).push(s@),
{
    push_view(v, String::from_str(s));
}

/// `a` followed by `b`.
pub fn concat(a: &str, b: &str) -> (r: String)
    ensures
        r@ == a@ + b@,
{
    let mut r = String::from_str(a);
    r.append(b);
    r
}

/// The installation image of the virtual machine `name` whose directory is `vm_path`.
pub open spec fn iso_path_of(vm_path: Seq<char>, name: Seq<char>) -> Seq<char> {
    vm_path + "/"@ + name + ".iso"@
}

/// The disk image of the virtual machine whose directory is `vm_path`.
pub open spec fn image_path_of(vm_path: Seq<char>) -> Seq<char> {
    vm_path + "/image.img"@
}

/// The arguments that start the emulator for the virtual machine with
/// directory `vm_path`: KVM if it is on, the installation image while no
/// operating system is installed, then memory, CPUs, boot menu, disk, CPU
/// model, display device and display.
pub open spec fn qemu_args_of(name: Seq<char>, smp: u8, ram: u8, kvm: bool, os_installed: bool, vm_path: Seq<char>) -> Seq<Seq<char>> {
    (if kvm { seq!["-enable-kvm"@] } else { Seq::empty() })
        + (if !os_installed { seq!["-cdrom"@, iso_path_of(vm_path, name)] } else { Seq::empty() })
        + seq![
            "-m"@, decimal(ram as nat) + "G"@,
            "-smp"@, decimal(smp as nat),
            "-boot"@, "menu=on"@,
            "-drive"@, "file="@ + image_path_of(vm_path),
            "-cpu"@, "host"@,
            "-device"@, "virtio-vga-gl"@,
            "-display"@, "sdl,gl=on"@,
        ]
}

/// The directory of the virtual machine `name` in the program directory `directory`.
pub fn vm_directory(directory: &str, name: &str) -> (r: String)
    ensures
        r@ == directory@ + "/"@ + name@,
{
    let r = concat(concat(directory, "/").as_str(), name);
    r
}

/// The installation image of the virtual machine `name` whose directory is `vm_path`.
pub fn iso_path(vm_path: &str, name: &str) -> (r: String)
    ensures
        r@ == iso_path_of(vm_path@, name@),
{
    concat(vm_directory(vm_path, name).as_str(), ".iso")
}

/// The disk image of the virtual machine whose directory is `vm_path`.
pub fn image_path(vm_path: &str) -> (r: String)
    ensures
        r@ == image_path_of(vm_path@),
{
    concat(vm_path, "/image.img")
}

impl VmDetails {
    /// The arguments that start the emulator for this virtual machine, whose
    /// directory is `vm_path`, as `qemu_args_of` says.
    pub fn qemu_args(&self, vm_path: &str) -> (r: Vec<String>)
        ensures
            views(r@) == qemu_args_of(self.name@, self.smp, self.ram, self.kvm, self.os_installed, vm_path@),
    {
        let mut r: Vec<String> = Vec::new();
        assert(views(r@) =~= Seq::<Seq<char>>::empty());
        let ghost a: Seq<Seq<char>> = if self.kvm { seq!["-enable-kvm"@] } else { Seq::empty() };
        if self.kvm {
            push_text(&mut r, "-enable-kvm");
        }
        assert(views(r@) =~= a);
        let ghost b: Seq<Seq<char>> = if !self.os_installed {
            seq!["-cdrom"@, iso_path_of(vm_path@, self.name@)]
        } else {
            Seq::empty()
        };
        if !self.os_installed {
            push_text(&mut r, "-cdrom");
            push_view(&mut r, iso_path(vm_path, self.name.as_str()));
        }
        assert(views(r@) =~= a + b);
        push_text(&mut r, "-m");
        push_view(&mut r, concat(decimal_u8(self.ram).as_str(), "G"));
        push_text(&mut r, "-smp");
        push_view(&mut r, decimal_u8(self.smp));
        push_text(&mut r, "-boot");
        push_text(&mut r, "menu=on");
        push_text(&mut r, "-drive");
        push_view(&mut r, concat("file=", image_path(vm_path).as_str()));
        push_text(&mut r, "-cpu");
        push_text(&mut r, "host");
        push_text(&mut r, "-device");
        push_text(&mut r, "virtio-vga-gl");
        push_text(&mut r, "-display");
        push_text(&mut r, "sdl,gl=on");
        assert(views(r@) =~= qemu_args_of(self.name@, self.smp, self.ram, self.kvm, self.os_installed, vm_path@));
        r
    }
}

/// The arguments that create the disk image `image_path` of `size_gb` GB.
pub open spec fn image_args_of(image_path: Seq<char>, size_gb: Seq<char>) -> Seq<Seq<char>> {
    seq!["create"@, "-f"@, "qcow2"@, image_path, size_gb + "G"@]
}

/// The arguments of the image tool that create the disk image `image_path`
/// of `size_gb` GB, the size as it was entered.
pub fn image_create_args(image_path: &str, size_gb: &str) -> (r: Vec<String>)
    ensures
        views(r@) == image_args_of(image_path@, size_gb@),
{
    let mut r: Vec<String> = Vec::new();
    push_text(&mut r, "create");
    push_text(&mut r, "-f");
    push_text(&mut r, "qcow2");
    push_text(&mut r, image_path);
    push_view(&mut r, concat(size_gb, "G"));
    assert(views(r@) =~= image_args_of(image_path@, size_gb@));
    r
}

/// Whether the answer `answer` to "enable KVM" says yes: empty, `Y` or `y`.
pub fn kvm_enabled(answer: &str) -> (r: bool)
    ensures
        r == (answer@.len() == 0 || answer@ == "Y"@ || answer@ == "y"@),
{
    let v = chars_of(answer);
    v.len() == 0 || same_chars(&v, "Y") || same_chars(&v, "y")
}

/// Whether a run that changed the disk image's size from `before` to `after`
/// shows that an operating system has now been installed.
pub fn installed_by_run(before: u64, after: u64, os_installed: bool) -> (r: bool)
    ensures
        r == (before != after && !os_installed),
{
    before != after && !os_installed
}

/// The index of the first virtual machine in `vms` named `name`, if any.
pub fn find_vm(vms: &Vec<VmDetails>, name: &str) -> (r: Option<usize>)
    ensures
        match r {
            Some(i) => i < vms@.len() && vms@[i as int].name@ == name@ && forall|j: int|
                0 <= j < i ==> #[trigger] vms@[j].name@ != name@,
            None => forall|j: int| 0 <= j < vms@.len() ==> #[trigger] vms@[j].name@ != name@,
        },
{
    let target = chars_of(name);
    let mut i: usize = 0;
    while i < vms.len()
        invariant
            i <= vms@.len(),
            target@ == name@,
            forall|j: int| 0 <= j < i ==> #[trigger] vms@[j].name@ != name@,
        decreases vms@.len() - i,
    {
        if same_chars(&target, vms[i].name.as_str()) {
            return Some(i);
        }
        i += 1;
    }
    None
}

/// `s` in lower case, as `str::to_lowercase` gives it.
pub uninterp spec fn lower_of(s: Seq<char>) -> Seq<char>;

/// Relies on `str::to_lowercase`: the result depends on the characters of
/// `s` alone.
#[verifier::external_body]
fn lowercase(s: &str) -> (r: String)
    ensures
        r@ == lower_of(s@),
{
    s.to_lowercase()
}

/// A virtual machine's name as entered: without leading and trailing white
/// space, in lower case.
pub fn normalize_name(input: &str) -> (r: String)
    ensures
        r@ == lower_of(trim(input@)),
{
    let t = string_of(&trim_chars(&chars_of(input)));
    lowercase(t.as_str())
}

} // verus!
