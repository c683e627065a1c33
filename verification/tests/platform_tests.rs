use livefetch::info::platform::linux::{
    self as lx, GpuRecord, Listings, PowerSupply, TempSensor, WmProbe,
};
use livefetch::info::platform::{common, fallback, macos, windows};

fn s(x: &str) -> String {
    x.to_string()
}

#[test]
fn fallback_reports_nothing() {
    assert_eq!(fallback::host_model(), "Unknown");
    assert!(fallback::packages().is_empty());
    assert!(fallback::gpus().is_empty());
    assert_eq!(fallback::battery(), None);
    assert_eq!(fallback::theme(), None);
}

#[test]
fn windows_battery_codes() {
    assert_eq!(windows::battery(Some(s("87:2\r\n"))), Some(s("87% (AC)")));
    assert_eq!(windows::battery(Some(s(" 40:1 "))), Some(s("40% (discharging)")));
    assert_eq!(windows::battery(Some(s("100:3"))), Some(s("100% (fully charged)")));
    assert_eq!(windows::battery(Some(s("55:9"))), Some(s("55% (unknown)")));
    assert_eq!(windows::battery(Some(s("87"))), None);
    assert_eq!(windows::battery(Some(s("  \r\n"))), None);
    assert_eq!(windows::battery(None), None);
}

#[test]
fn windows_packages_and_models() {
    let winget = s("Name   Id\n------\nA  a\nB  b\n\n");
    let choco = s("pkg1|1.0\npkg2|2.0\n");
    assert_eq!(
        windows::packages(Some(winget), Some(s("Installed apps:\n\n")), Some(choco)),
        vec![s("2 (winget)"), s("2 (choco)")]
    );
    assert_eq!(windows::host_model(Some(s("ThinkPad X1\r\n"))), "ThinkPad X1");
    assert_eq!(windows::host_model(Some(s("  \n"))), "PC");
    assert_eq!(windows::host_model(None), "PC");
    assert_eq!(
        windows::resolution(Some(s(" 1920x1080, 2560x1440 \r\n"))),
        Some(s("1920x1080, 2560x1440"))
    );
    assert_eq!(windows::resolution(Some(s("x"))), None);
    assert_eq!(
        windows::gpus(Some(s("NVIDIA GeForce\r\n\r\n  Intel UHD \r\n"))),
        vec![s("NVIDIA GeForce"), s("Intel UHD")]
    );
    assert_eq!(windows::desktop_environment(), Some(s("Aero")));
}

#[test]
fn macos_battery_lines() {
    let charged = "Now drawing from 'AC Power'\n -InternalBattery-0 (id=1234)\t95%; charged; 0:00 remaining present: true\n";
    assert_eq!(macos::battery(Some(s(charged))), Some(s("95% (AC)")));
    let draining = "Now drawing from 'Battery Power'\n -InternalBattery-0 (id=1)\t40%; discharging; 3:10 remaining\n";
    assert_eq!(macos::battery(Some(s(draining))), Some(s("40% (discharging)")));
    assert_eq!(macos::battery(Some(s("no battery here\n"))), None);
    assert_eq!(macos::battery(Some(s("75%"))), None);
    assert_eq!(macos::battery(Some(s("x 5% idle"))), Some(s("5%")));
    assert_eq!(macos::battery(Some(s("é5%"))), Some(s("5%")));
}

#[test]
fn macos_parsers() {
    assert_eq!(macos::load_average(Some(s("{ 1.23 4.56 7.89 }\n"))), Some(s("1.23 4.56 7.89")));
    assert_eq!(macos::load_average(Some(s("{ 1.23 }"))), None);
    let displays = "Graphics/Displays:\n  Chipset Model: Apple M1\n  Resolution: 3024 x 1964 Retina\n  Resolution: 1920 x 1080\n";
    assert_eq!(
        macos::resolution(Some(s(displays))),
        Some(s("3024 x 1964 Retina, 1920 x 1080"))
    );
    assert_eq!(macos::resolution(Some(s("nothing"))), None);
    assert_eq!(macos::gpus(Some(s(displays))), vec![s("Apple M1")]);
    assert_eq!(macos::theme(Some(s("Dark\n"))), Some(s("Dark")));
    assert_eq!(macos::theme(Some(s("DARK "))), Some(s("Dark")));
    assert_eq!(macos::theme(None), Some(s("Light")));
    assert_eq!(macos::host_model(Some(s("MacBookPro18,1\n"))), "MacBookPro18,1");
    assert_eq!(macos::host_model(None), "Mac");
    assert_eq!(
        macos::os(Some(s("macOS\n")), Some(s("14.2\n")), Some(s("23C64\n")), "aarch64"),
        "macOS 14.2 (23C64) aarch64"
    );
    assert_eq!(macos::os(None, None, None, "x86_64"), "macOS  x86_64");
}

#[test]
fn macos_packages_counts() {
    let port = "The following ports are currently installed:\n  x\n  y\n";
    assert_eq!(
        macos::packages(Some(s("a\nb\nc\n")), Some(s("")), Some(s(port)), None),
        vec![s("3 (brew)"), s("2 (port)")]
    );
    assert_eq!(macos::packages(Some(s("")), None, None, None), vec![s("0 (brew)")]);
}

#[test]
fn macos_addresses() {
    let route = "   route to: default\ndestination: default\n  interface: en0\n";
    assert_eq!(macos::default_iface(Some(s(route))), Some(s("en0")));
    assert_eq!(macos::default_iface(None), None);
    assert_eq!(macos::local_ip("en0", Some(s("192.168.1.5\n"))), Some(s("192.168.1.5 (en0)")));
    assert_eq!(macos::local_ip("en0", Some(s("\n"))), None);
    let ifc = "en0: flags=8863<UP>\n\tinet6 FE80::1%en0 prefixlen 64\n\tinet6 2001:db8::5 prefixlen 64 autoconf\n";
    assert_eq!(macos::local_ip6("en0", Some(s(ifc))), Some(s("2001:db8::5 (en0)")));
    let only_link = "\tinet6 fe80::1%en0 prefixlen 64\n";
    assert_eq!(macos::local_ip6("en0", Some(s(only_link))), None);
}

const XRANDR: &str = "Screen 0: minimum 320 x 200, current 1920 x 1080, maximum 16384 x 16384
eDP-1 connected primary 1920x1080+0+0 (normal left inverted right x axis y axis) 344mm x 194mm
   1920x1080     60.02*+  59.93
   1680x1050     59.95
HDMI-1 disconnected (normal left inverted right x axis y axis)
DP-1 connected 2560x1440+1920+0 (normal) 597mm x 336mm
   2560x1440     59.95 +  143.97*
DP-2 connected (normal left inverted right x axis y axis)
   1024x768      60.00
";

#[test]
fn xrandr_outputs() {
    assert_eq!(
        lx::parse_xrandr(XRANDR),
        vec![s("eDP-1: 1920x1080 @ 60.02Hz"), s("DP-1: 2560x1440 @ 59.95Hz")]
    );
    assert_eq!(
        lx::resolution(Some(s(XRANDR)), &vec![s("eDP-1: 800x600")]),
        Some(s("eDP-1: 1920x1080 @ 60.02Hz, DP-1: 2560x1440 @ 59.95Hz"))
    );
    assert_eq!(lx::resolution(None, &vec![s("eDP-1: 800x600")]), Some(s("eDP-1: 800x600")));
    assert_eq!(lx::resolution(Some(s("garbage")), &vec![]), None);
}

#[test]
fn drm_connectors() {
    assert_eq!(
        lx::drm_entry("card0-eDP-1", Some(s("connected\n")), Some(s("\n1920x1080\n1280x720\n"))),
        Some(s("eDP-1: 1920x1080"))
    );
    assert_eq!(lx::drm_entry("card0-HDMI-A-1", Some(s("disconnected\n")), Some(s("640x480"))), None);
    assert_eq!(lx::drm_entry("card1-DP-1", Some(s("connected")), None), None);
    assert_eq!(lx::drm_entry("Virtual", Some(s("connected")), Some(s("1024x768"))), Some(s("Virtual: 1024x768")));
}

const LSPCI: &str = "Slot:\t00:02.0
Class:\tVGA compatible controller
Vendor:\tIntel Corporation
Device:\tAlder Lake-P GT2 [Iris Xe Graphics]
Driver:\ti915

Slot:\t01:00.0
Class:\t3D controller
Vendor:\tnvidia corp
Device:\tGA107M [GeForce RTX 3050 Mobile]
Driver:\tnvidia

Slot:\t00:1f.3
Class:\tAudio device
Vendor:\tIntel Corporation
Device:\tHigh Definition Audio Controller

Slot:\t02:00.0
Class:\tDisplay controller
Vendor:\tMatrox Electronics Systems Ltd.
Device:\tG200eR2
";

#[test]
fn lspci_gpus_and_drivers() {
    assert_eq!(
        lx::gpus(Some(s(LSPCI))),
        vec![
            s("Intel Iris Xe Graphics [i915]"),
            s("NVIDIA GeForce RTX 3050 Mobile [nvidia]"),
            s("Matrox Electronics Systems Ltd. G200eR2")
        ]
    );
    assert_eq!(lx::gpu_drivers(Some(s(LSPCI))), vec![s("i915"), s("nvidia")]);
    assert!(lx::gpus(None).is_empty());
    let recs: Vec<GpuRecord> = lx::lspci_records(Some(s(LSPCI)));
    assert_eq!(recs.len(), 3);
    assert_eq!(recs[2].driver, None);
}

#[test]
fn each_driver_is_the_suffix_of_a_gpu_entry() {
    let gpus = lx::gpus(Some(s(LSPCI)));
    let drivers = lx::gpu_drivers(Some(s(LSPCI)));
    assert!(drivers.len() <= gpus.len());
    let mut from = 0;
    for d in &drivers {
        let suffix = format!(" [{}]", d);
        let pos = (from..gpus.len()).find(|&j| gpus[j].ends_with(&suffix)).unwrap();
        from = pos + 1;
    }
}

#[test]
fn vendor_and_device_names() {
    assert_eq!(lx::short_vendor("nvidia corp"), "NVIDIA");
    assert_eq!(lx::short_vendor("Advanced Micro Devices, Inc. [AMD/ATI]"), "AMD");
    assert_eq!(lx::short_vendor("Foo Corporation"), "Foo");
    assert_eq!(lx::short_vendor("Red Hat, Inc."), "Red Hat");
    assert_eq!(lx::clean_device("GA107M [GeForce RTX 3050 Mobile]"), "GeForce RTX 3050 Mobile");
    assert_eq!(lx::clean_device("a ] b [ c"), "a ] b [ c");
}

#[test]
fn linux_addresses() {
    let route = "1.1.1.1 via 192.168.1.1 dev wlan0 src 192.168.1.42 uid 1000 \n    cache \n";
    assert_eq!(lx::local_ip(Some(s(route)), None), Some(s("192.168.1.42 (wlan0)")));
    assert_eq!(lx::local_ip(Some(s("1.1.1.1 src 10.1.2.3")), None), Some(s("10.1.2.3")));
    assert_eq!(lx::local_ip(None, Some(s("10.0.0.5 172.17.0.1 \n"))), Some(s("10.0.0.5")));
    assert_eq!(lx::local_ip(Some(s("unreachable")), Some(s("  "))), None);
}

#[test]
fn linux_theme_sources() {
    assert_eq!(lx::gsettings_value(Some(s("'Adwaita-dark'\n"))), Some(s("Adwaita-dark")));
    assert_eq!(lx::gsettings_value(Some(s("''\n"))), None);
    let ini = vec![s("[Settings]\ngtk-theme-name-extra=x\ngtk-theme-name = \"Arc-Dark\"\n")];
    assert_eq!(lx::read_gtk_setting("gtk-theme-name", &ini), Some(s("Arc-Dark")));
    assert_eq!(lx::read_gtk_setting("gtk-icon-theme-name", &ini), None);
    assert_eq!(
        lx::theme(Some(s("Arc")), Some(s("Adwaita")), None, Some(s("Papirus"))),
        Some(s("GTK: Arc, Icons: Papirus"))
    );
    assert_eq!(lx::theme(None, None, None, None), None);
}

#[test]
fn linux_files() {
    let rel = "NAME=\"Arch Linux\"\nPRETTY_NAME=\"Arch Linux\"\nID=arch\n";
    assert_eq!(lx::os(rel, "x86_64"), "Arch Linux x86_64");
    assert_eq!(lx::os("NAME=Debian\n", "arm"), "Debian arm");
    assert_eq!(lx::os("", "riscv64"), "Linux riscv64");
    assert_eq!(lx::host_model(&vec![s("\0\0"), s("  ThinkPad X1\0\n")]), "ThinkPad X1\0");
    assert_eq!(lx::host_model(&vec![s("  Board\0\0")]), "Board");
    assert_eq!(lx::host_model(&vec![]), "Linux Host");
    assert_eq!(lx::init_system(Some(s("systemd\n"))), Some(s("systemd")));
    assert_eq!(lx::init_system(Some(s("\n"))), None);
    assert_eq!(lx::load_average(Some(s("0.52 0.58 0.59 2/1180 12345\n"))), Some(s("0.52 0.58 0.59")));
    assert_eq!(lx::load_average(Some(s("0.5"))), None);
}

#[test]
fn linux_power_supplies() {
    let mains = PowerSupply { kind: Some(s("Mains\n")), capacity: None, status: None };
    let bat = PowerSupply {
        kind: Some(s("Battery\n")),
        capacity: Some(s("80\n")),
        status: Some(s("Discharging\n")),
    };
    assert_eq!(lx::battery(&vec![mains, bat]), Some(s("80% (Discharging)")));
    let bat2 = PowerSupply { kind: Some(s("Battery")), capacity: Some(s("7")), status: None };
    assert_eq!(lx::battery(&vec![bat2]), Some(s("7% (Unknown)")));
    let broken = PowerSupply { kind: None, capacity: None, status: None };
    let bat3 = PowerSupply { kind: Some(s("Battery")), capacity: Some(s("9")), status: None };
    assert_eq!(lx::battery(&vec![broken, bat3]), None);
}

#[test]
fn linux_packages_counts() {
    let l = Listings {
        dpkg: Some(s(".\n.\n.\n")),
        rpm: None,
        pacman: Some(s("")),
        apk: None,
        flatpak: Some(s("\n")),
        snap: Some(s("Name Version\ncore 16\n")),
        nix: None,
    };
    assert_eq!(lx::packages(l), vec![s("3 (dpkg)"), s("0 (pacman)"), s("1 (snap)")]);
}

#[test]
fn linux_sessions_and_desktops() {
    assert_eq!(lx::session_type(Some(s("wayland")), Some(s("Sway"))), Some(s("wayland (Sway)")));
    assert_eq!(lx::session_type(Some(s("tty")), Some(s("Sway"))), Some(s("TTY")));
    assert_eq!(lx::session_type(Some(s("")), Some(s("i3"))), Some(s("i3")));
    assert_eq!(lx::session_type(None, None), None);
    assert_eq!(lx::desktop_environment(Some(s("GNOME")), None, None, &vec![]), Some(s("GNOME")));
    assert_eq!(lx::desktop_environment(Some(s("")), None, None, &vec![false, true]), Some(s("KDE Plasma")));
    assert_eq!(lx::desktop_environment(None, None, Some(s("tty")), &vec![true]), None);
    assert_eq!(lx::de_process_list().len(), 8);
    assert_eq!(lx::de_process_list()[1], (s("plasmashell"), s("KDE Plasma")));
    assert_eq!(lx::audio_server(true, false, true, true), Some(s("PulseAudio")));
    assert_eq!(lx::audio_server(false, true, true, true), None);
}

fn probe() -> WmProbe {
    WmProbe {
        wayland: None,
        swaysock: false,
        hyprland_sig: false,
        sway_running: false,
        hyprland_running: false,
        wayland_running: vec![],
        display: false,
        xprop_name: None,
        wmctrl: None,
        x11_running: vec![],
    }
}

#[test]
fn linux_window_managers() {
    let mut p = probe();
    p.wayland = Some(s("wayland-1"));
    assert_eq!(lx::window_manager(p), Some(s("Wayland (wayland-1)")));
    let mut p = probe();
    p.wayland = Some(s("wayland-0"));
    p.wayland_running = vec![false, false, true];
    assert_eq!(lx::window_manager(p), Some(s("Mutter (Wayland)")));
    let mut p = probe();
    p.display = true;
    p.wmctrl = Some(s("Openbox"));
    assert_eq!(lx::window_manager(p), Some(s("Openbox")));
    let mut p = probe();
    p.display = true;
    p.x11_running = vec![false, true];
    assert_eq!(lx::window_manager(p), Some(s("bspwm")));
    assert_eq!(lx::window_manager(probe()), None);
    assert_eq!(lx::xprop_window_id("_NET_SUPPORTING_WM_CHECK(WINDOW): window id # 0x1e00001\n"), Some(s("0x1e00001")));
    assert_eq!(lx::xprop_wm_name("_NET_WM_NAME = \"i3\"\n"), Some(s("i3")));
    assert_eq!(lx::xprop_wm_name("_NET_WM_NAME = \"\"\n"), None);
    assert_eq!(lx::wmctrl_name("Name: KWin\nClass: N/A\n"), Some(s("KWin")));
}

#[test]
fn linux_cpu_temperature() {
    let sensors = vec![
        TempSensor { chip: s("acpitz"), label: s(""), reading: Some(s("45000\n")) },
        TempSensor { chip: s("coretemp\n"), label: s("Core 0"), reading: Some(s("50000")) },
        TempSensor { chip: s("coretemp"), label: s("PACKAGE id 0"), reading: Some(s("52000\n")) },
        TempSensor { chip: s("coretemp"), label: s("Package id 1"), reading: Some(s("53000")) },
    ];
    assert_eq!(lx::cpu_temp_milli(&sensors), Some(52000));
    let bad = vec![
        TempSensor { chip: s("k10temp"), label: s("Tctl"), reading: Some(s("-5")) },
        TempSensor { chip: s("k10temp"), label: s("Tctl"), reading: None },
    ];
    assert_eq!(lx::cpu_temp_milli(&bad), None);
    assert_eq!(lx::temp_input_index_of("temp12_input"), Some(s("12")));
    assert_eq!(lx::temp_input_index_of("temp1_label"), None);
}

#[test]
fn common_environment_values() {
    assert_eq!(common::terminal(Some(s("WezTerm")), Some(s("2024")), false, false, None, None), "WezTerm 2024");
    assert_eq!(common::terminal(Some(s("")), None, true, false, None, Some(s("xterm"))), "kitty");
    assert_eq!(common::terminal(None, None, false, false, Some(s("iTerm2")), None), "iTerm2");
    assert_eq!(common::terminal(None, None, false, false, None, Some(s(""))), "");
    assert_eq!(common::terminal(None, None, false, false, None, None), "?");
    assert_eq!(common::locale(Some(s("")), None, Some(s("en_US.UTF-8"))), "en_US.UTF-8");
    assert_eq!(common::locale(None, None, None), "C");
}
