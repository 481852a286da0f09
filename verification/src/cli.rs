//! The command surface as plain data: what each subcommand carries once
//! the arguments are read.

use vstd::prelude::*;

verus! {

/// One invocation of the tool.
pub struct Cli {
    pub command: Commands,
}

/// The subcommands and their settings.
pub enum Commands {
    Create {
        name: Option<String>,
        description: Option<String>,
        icon: Option<String>,
        format: Option<Vec<u8>>,
        minecraft: bool,
        minecraft_load: bool,
        minecraft_tick: bool,
        namespace: Option<String>,
        folders: Option<Vec<String>>,
        output_dir: Option<String>,
        force: bool,
        skip_icon: bool,
        skip_starter_files: bool,
        skip_minecraft_tags: bool,
    },
    Info {
        path: Option<String>,
        compact: bool,
        pack_info: bool,
        namespaces: bool,
    },
    Zip {
        path: Option<String>,
        input_dir: Option<String>,
        name: Option<String>,
        output_dir: Option<String>,
        force: bool,
    },
    Add {
        element: Option<String>,
        path: Option<String>,
        namespace: Option<String>,
        name: Option<String>,
        force: bool,
    },
}

} // verus!
