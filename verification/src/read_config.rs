//! The machine and the options that a run is configured with.
//!
//! The values are read once, from a file and the command line, and are not
//! changed after that. This module holds them as plain data, together with
//! the text of the file that is written where none exists.

use vstd::prelude::*;
use crate::graph::text::{same_text, str_chars};

verus! {

/// The topology of the traced machine.
#[derive(Debug, Clone, PartialEq, Eq)]
pub struct Machine {
    pub cpus: u32,
    pub sockets: u32,
    pub cores_per_socket: u32,
    pub threads_per_core: u32,
    pub numa_nodes: u32,
    /// For each socket, in order, the ranges of CPU ids that belong to it.
    /// A range is a pair: its lowest and its highest id.
    pub numa_node_ranges: Vec<Vec<Vec<u32>>>,
}

/// The ranges of each socket as sequences of numbers.
pub open spec fn range_views(ranges: Seq<Vec<Vec<u32>>>) -> Seq<Seq<Seq<u32>>> {
    ranges.map_values(|socket: Vec<Vec<u32>>| socket@.map_values(|range: Vec<u32>| range@))
}

impl Machine {
    /// The ranges of each socket as sequences of numbers.
    pub open spec fn ranges(&self) -> Seq<Seq<Seq<u32>>> {
        range_views(self.numa_node_ranges@)
    }
}

/// Options for a static image beside the interactive page.
#[derive(Debug, Clone, PartialEq, Eq)]
pub struct Static {
    /// Whether to render a static image at all.
    pub gen_static: bool,
    /// Width of the image in pixels.
    pub static_res_width: usize,
    /// Height of the image in pixels.
    pub static_res_height: usize,
    /// The format of the image: `png`, `svg`, `webp`, `pdf`, `jpeg` or
    /// `eps`.
    pub filetype: String,
}

/// The formats of a static image.
#[derive(Debug, Clone, Copy, PartialEq, Eq, Structural)]
pub enum ImageKind {
    Png,
    Svg,
    Jpeg,
    Webp,
    Pdf,
    Eps,
}

/// The format that the file type `filetype` names; `None` where it names
/// none.
pub open spec fn image_kind_of(filetype: Seq<char>) -> Option<ImageKind> {
    if filetype == "png"@ {
        Some(ImageKind::Png)
    } else if filetype == "svg"@ {
        Some(ImageKind::Svg)
    } else if filetype == "jpeg"@ {
        Some(ImageKind::Jpeg)
    } else if filetype == "webp"@ {
        Some(ImageKind::Webp)
    } else if filetype == "pdf"@ {
        Some(ImageKind::Pdf)
    } else if filetype == "eps"@ {
        Some(ImageKind::Eps)
    } else {
        None
    }
}

impl Static {
    /// The format of the static image; `None` where the file type is none
    /// of the six.
    pub fn image_kind(&self) -> (kind: Option<ImageKind>)
        ensures
            kind == image_kind_of(self.filetype@),
    {
        let filetype = str_chars(self.filetype.as_str());
        if same_text(&filetype, "png") {
            Some(ImageKind::Png)
        } else if same_text(&filetype, "svg") {
            Some(ImageKind::Svg)
        } else if same_text(&filetype, "jpeg") {
            Some(ImageKind::Jpeg)
        } else if same_text(&filetype, "webp") {
            Some(ImageKind::Webp)
        } else if same_text(&filetype, "pdf") {
            Some(ImageKind::Pdf)
        } else if same_text(&filetype, "eps") {
            Some(ImageKind::Eps)
        } else {
            None
        }
    }
}

/// Which kinds of events a chart shows.
#[derive(Debug, Clone, Copy, PartialEq, Eq, Structural)]
pub struct Events {
    /// Show every kind.
    pub show_events: bool,
    /// Show the notches of switch events.
    pub show_switch: bool,
    /// Show the events that are drawn as a notch only: wake-ups and forks.
    pub show_marker_only: bool,
    /// Show migrations.
    pub show_migrate: bool,
}

impl Events {
    /// Whether the notches of switch events are to be drawn.
    pub fn switch_markers_shown(&self) -> (shown: bool)
        ensures
            shown == (self.show_events || self.show_switch),
    {
        self.show_events || self.show_switch
    }

    /// Whether the events drawn as a notch only are to be drawn.
    pub fn marker_events_shown(&self) -> (shown: bool)
        ensures
            shown == (self.show_events || self.show_marker_only),
    {
        self.show_events || self.show_marker_only
    }

    /// Whether migrations are to be drawn.
    pub fn migrations_shown(&self) -> (shown: bool)
        ensures
            shown == (self.show_events || self.show_migrate),
    {
        self.show_events || self.show_migrate
    }
}

/// The text of the configuration file that is written where there is none.
pub const DEFAULT_CONFIG: &'static str = "[machine]
    cpus = 64
    sockets = 2
    cores_per_socket = 16
    threads_per_core = 2
    numa_nodes = 2
    numa_node_ranges = [ 
                            [ 
                                [0, 15], 
                                [32, 47] 
                            ], 
                            [ 
                                [16, 31],
                                [48, 63]
                            ] 
                        ]


[graph]
    # color options: pid, command, parent
    color_by = \"parent\"

    # if true cpus are arranged as per sockets
    socket_order = false

    # start plot after the first sleep command
    sleep = false

    # whether to have filename as title on top of graph
    show_title = true

    # whether to create a html plot
    create_html = true

    # set the html plot's interactivity
    interactive = true

    # transparent marker count for hover info between switch events
    line_marker_count = 0
    
    # Switch events smaller than limit will be ignored if not interactive
    limit = 0.0

    # webgl improves performance especially for large graphs, but may cause pixelation
    webgl = false

    # whether to show only a part of the graph
    custom_range = false

    # bounds for the part to show
    min = 0.0
    max = 0.0

    # whether to show the generated html file after creation
    show_html = true

    # browser program name, if empty default is used
    browser = \"\"
    
    # Location for the generated file(s)
    output_path = \"\"

    # input files, can be given as an array here or via commmand line arguments
    files = [\"\"]

[graph.events]
    # choose which events to show, all are shown if show_events = true
    show_events = true

    # toggle for switch event notches
    show_switch = false

    # Events represented with only a notch: wake, process fork/exec etc.
    show_marker_only =  false

    # Migration events: unblock placement, load balancing, numa balancing
    show_migrate = false

[graph.static_options]
    # generate static graph in a different file format
    gen_static = false

    static_res_width = 1920
    static_res_height = 1080

    # filetype options = png, jpeg, webp, svg, pdf, eps
    filetype = \"png\"
";

/// The configuration that is written to disk where no file exists: a
/// machine of 64 CPUs on two sockets, and a chart with every kind of event
/// shown.
pub fn default_config() -> (text: String)
    ensures
        text@ == DEFAULT_CONFIG@,
{
    String::from_str(DEFAULT_CONFIG)
}

} // verus!
