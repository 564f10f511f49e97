//! Command models for the conversion tools.
//!
//! Argument parsing and file handling live in the front ends; what is
//! decided here — which conversion runs, against which system profile — is
//! verified.  A command resolves to a plan holding the paths and the exact
//! profile the conversion must honour.

use vstd::prelude::*;

use crate::system::{IOEndian, Platform, SystemInfo};

verus! {

/// The audio encoder command: input and output paths and an optional
/// sample-rate override.
#[derive(Debug)]
pub struct EncoderApp {
    pub input_path: String,
    pub output_path: String,
    pub sample_rate: Option<u32>,
}

/// The animation import command: scene file in, archive directory out,
/// byte order by flag.
#[derive(Debug)]
pub struct AnimApp {
    pub anim_path: String,
    pub output_path: String,
    pub big_endian: bool,
}

/// The model conversion command: model file in, archive directory out.
#[derive(Debug)]
pub struct Model2GroupApp {
    pub model_path: String,
    pub output_path: String,
}

/// A command that selects the system profile its conversion honours.
pub trait GameOptions {
    fn get_system_info(&self) -> SystemInfo;
}

impl GameOptions for AnimApp {
    /// The animation importer targets the format version 25 console
    /// profile; the endianness follows the command's flag.
    fn get_system_info(&self) -> (r: SystemInfo)
        ensures
            r.version == 25,
            r.platform == Platform::X360,
            r.endian == (if self.big_endian {
                IOEndian::Big
            } else {
                IOEndian::Little
            }),
    {
        SystemInfo {
            version: 25,
            platform: Platform::X360,
            endian: if self.big_endian {
                IOEndian::Big
            } else {
                IOEndian::Little
            },
        }
    }
}

impl GameOptions for Model2GroupApp {
    /// The model converter targets the big-endian format version 25
    /// console profile.
    fn get_system_info(&self) -> (r: SystemInfo)
        ensures
            r.version == 25,
            r.platform == Platform::PS3,
            r.endian == IOEndian::Big,
    {
        SystemInfo { version: 25, platform: Platform::PS3, endian: IOEndian::Big }
    }
}

/// The tool's subcommands.
#[derive(Debug)]
pub enum SubCommand {
    Anim(AnimApp),
    Model2Group(Model2GroupApp),
}

/// Parsed command-line options.
#[derive(Debug)]
pub struct Options {
    pub commands: SubCommand,
}

/// What the front end must do for one invocation.
#[derive(Debug)]
pub enum ToolAction {
    /// Import animations from the scene file and write clips under the
    /// output directory, honouring the profile exactly.
    ImportAnim { anim_path: String, output_path: String, info: SystemInfo },
    /// Convert the model file into a group archive under the output
    /// directory, honouring the profile exactly.
    ConvertModel { model_path: String, output_path: String, info: SystemInfo },
}

/// The mesh tool: dispatches one parsed command.
#[derive(Debug)]
pub struct MeshTool {
    pub options: Options,
}

impl MeshTool {
    /// Wraps parsed options; parsing itself is front-end work.
    pub fn new(options: Options) -> (r: MeshTool)
        ensures
            r.options == options,
    {
        MeshTool { options }
    }

    /// Resolves the selected command to the plan the front end runs: the
    /// command's paths, under the command's own system profile.
    pub fn run(&mut self) -> (r: ToolAction)
        ensures
            match old(self).options.commands {
                SubCommand::Anim(ref app) => r matches ToolAction::ImportAnim {
                    anim_path,
                    output_path,
                    info,
                } && anim_path@ == app.anim_path@ && output_path@ == app.output_path@
                    && info.version == 25 && info.platform == Platform::X360 && info.endian == (
                if app.big_endian {
                    IOEndian::Big
                } else {
                    IOEndian::Little
                }),
                SubCommand::Model2Group(ref app) => r matches ToolAction::ConvertModel {
                    model_path,
                    output_path,
                    info,
                } && model_path@ == app.model_path@ && output_path@ == app.output_path@
                    && info.version == 25 && info.platform == Platform::PS3 && info.endian
                    == IOEndian::Big,
            },
            *final(self) == *old(self),
    {
        match &self.options.commands {
            SubCommand::Anim(app) => {
                let info = app.get_system_info();
                ToolAction::ImportAnim {
                    anim_path: app.anim_path.clone(),
                    output_path: app.output_path.clone(),
                    info,
                }
            },
            SubCommand::Model2Group(app) => {
                let info = app.get_system_info();
                ToolAction::ConvertModel {
                    model_path: app.model_path.clone(),
                    output_path: app.output_path.clone(),
                    info,
                }
            },
        }
    }
}

} // verus!
