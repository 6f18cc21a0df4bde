//! Command-line arguments of the engine.

use vstd::prelude::*;

verus! {

/// What the engine is asked to do on start.
#[derive(Debug, Clone)]
pub struct CliArgs {
    /// Subcommand (init, run, test, build, publish, ...).
    pub command: Option<Command>,
    /// Path to the scene YAML file.
    pub scene: Option<String>,
    /// Path to the render pipeline YAML file.
    pub pipeline: Option<String>,
    /// Window or headless output.
    pub output: OutputMode,
    /// Path to the game project root directory.
    pub project: String,
    /// Path to the command socket for external control.
    pub socket: String,
    /// Show the render debug HUD on startup.
    pub hud: bool,
}

/// Subcommands.
#[derive(Debug, Clone)]
pub enum Command {
    /// Create a new game project.
    Init { name: String },
    /// Run the game, optionally with another scene.
    Run { scene: Option<String> },
    /// Run the Lua test scripts, or one of them.
    Test { test_file: Option<String> },
    /// Bundle the game for a platform.
    Build { target: Option<String> },
    /// Publish to the world server.
    Publish,
    /// Submit the dev log as an issue.
    SubmitLog,
    /// Run a built-in demo.
    Demo { selector: Option<String> },
    /// List and run the built-in demos.
    Demos { selector: Option<String> },
}

/// Where frames go.
#[derive(Debug, Clone, Copy, PartialEq, Eq, Structural)]
pub enum OutputMode {
    Window,
    Headless,
}

} // verus!
