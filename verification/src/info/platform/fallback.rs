//! Platforms without probes: every value is unknown, empty or absent.
use vstd::prelude::*;

verus! {

/// The host model is always `Unknown`.
pub fn host_model() -> (r: String)
    ensures
        r@ == "Unknown"@,
{
    String::from_str("Unknown")
}

/// No package managers are counted.
pub fn packages() -> (r: Vec<String>)
    ensures
        r@.len() == 0,
{
    Vec::new()
}

/// No desktop environment is known.
pub fn desktop_environment() -> (r: Option<String>)
    ensures
        r is None,
{
    None
}

/// No window manager is known.
pub fn window_manager() -> (r: Option<String>)
    ensures
        r is None,
{
    None
}

/// No resolution is known.
pub fn resolution() -> (r: Option<String>)
    ensures
        r is None,
{
    None
}

/// No GPU is listed.
pub fn gpus() -> (r: Vec<String>)
    ensures
        r@.len() == 0,
{
    Vec::new()
}

/// No battery is known.
pub fn battery() -> (r: Option<String>)
    ensures
        r is None,
{
    None
}

/// No init system is known.
pub fn init_system() -> (r: Option<String>)
    ensures
        r is None,
{
    None
}

/// No load average is known.
pub fn load_average() -> (r: Option<String>)
    ensures
        r is None,
{
    None
}

/// No CPU temperature is known.
pub fn cpu_temperature() -> (r: Option<String>)
    ensures
        r is None,
{
    None
}

/// No GPU driver is listed.
pub fn gpu_drivers() -> (r: Vec<String>)
    ensures
        r@.len() == 0,
{
    Vec::new()
}

/// No audio server is known.
pub fn audio_server() -> (r: Option<String>)
    ensures
        r is None,
{
    None
}

/// No session type is known.
pub fn session_type() -> (r: Option<String>)
    ensures
        r is None,
{
    None
}

/// No IPv4 address is known.
pub fn local_ip() -> (r: Option<String>)
    ensures
        r is None,
{
    None
}

/// No IPv6 address is known.
pub fn local_ip6() -> (r: Option<String>)
    ensures
        r is None,
{
    None
}

/// No theme is known.
pub fn theme() -> (r: Option<String>)
    ensures
        r is None,
{
    None
}

} // verus!
