//! Screenshots and screen casts for other programs.

use vstd::prelude::*;

use crate::integer::{decimal, push_decimal};

verus! {

/// What the portal is told.
#[derive(Debug)]
pub enum PortalEvent {
    /// A picture: four bytes a pixel, blue first.
    Frame { pixels: Vec<u8>, width: u32, height: u32 },
    Shutdown,
}

/// What the portal asks for.
#[derive(Debug)]
pub enum PortalRequest {
    /// A picture of the screen, as a file.
    Screenshot { path: String },
    StartCast { output_name: String },
    StopCast,
}

/// A cast of the screen. Casts are not available.
#[derive(Debug)]
pub struct PipeWireStream {}

impl PipeWireStream {
    /// Says why there is no cast.
    pub fn new() -> (r: Result<Self, &'static str>)
        ensures
            r matches Err(e) && e@
                == "PipeWire screencast disabled (libspa 0.8.0 header mismatch)"@,
    {
        Err("PipeWire screencast disabled (libspa 0.8.0 header mismatch)")
    }

    /// The number of the cast, which stands for none.
    pub fn node_id(&self) -> (r: u32)
        ensures
            r == 0,
    {
        0
    }

    /// A picture is dropped.
    pub fn push_frame(&self, pixels: &Vec<u8>, w: u32, h: u32) {
    }
}

/// The number that a client is told of the cast.
pub fn cast_node(stream: &Option<PipeWireStream>) -> (r: u32)
    ensures
        r == 0,
{
    match stream {
        Some(s) => s.node_id(),
        None => 0,
    }
}

/// What the portal does with an event: whether it goes on.
pub fn on_event(stream: &Option<PipeWireStream>, event: &PortalEvent) -> (r: bool)
    ensures
        r == !(*event is Shutdown),
{
    match event {
        PortalEvent::Frame { pixels, width, height } => {
            if let Some(s) = stream {
                s.push_frame(pixels, *width, *height);
            }
            true
        },
        PortalEvent::Shutdown => false,
    }
}

/// The directory of pictures.
pub open spec fn pictures_dir(given: Option<Seq<char>>, home: Option<Seq<char>>) -> Seq<char> {
    match given {
        Some(d) => d,
        None => (match home {
            Some(h) => h,
            None => "/tmp"@,
        }) + "/Pictures"@,
    }
}

/// The file of a screenshot that is taken `secs` seconds after the epoch;
/// `name` is the name of the program.
pub fn screenshot_path(name: &str, given: Option<&str>, home: Option<&str>, secs: u64) -> (r: String)
    ensures
        r@ == pictures_dir(
            crate::config::paths::opt_str(given),
            crate::config::paths::opt_str(home),
        ) + "/"@ + name@ + "-screenshot-"@ + decimal(secs as nat) + ".png"@,
{
    let mut r = match given {
        Some(d) => d.to_owned(),
        None => {
            let mut d = match home {
                Some(h) => h.to_owned(),
                None => "/tmp".to_owned(),
            };
            d.append("/Pictures");
            d
        },
    };
    r.append("/");
    r.append(name);
    r.append("-screenshot-");
    push_decimal(&mut r, secs);
    r.append(".png");
    r
}

/// What a screenshot is answered: where its file is.
pub fn file_uri(path: &str) -> (r: String)
    ensures
        r@ == "file://"@ + path@,
{
    let mut r = "file://".to_owned();
    r.append(path);
    r
}

} // verus!
