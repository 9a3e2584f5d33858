use vstd::prelude::*;

verus! {

/// Startup settings of the viewer.
pub struct Config {
    /// Path of the `.vox` model that is shown as the world.
    pub world_model: String,
}

/// The model loaded when no path is given on the command line.
pub open spec fn default_world_model() -> Seq<char> {
    "vox/colors.vox"@
}

impl Config {
    /// Builds the configuration from the program's argument list (`args[0]` is the
    /// program itself): the first argument, when present, names the world model.
    pub fn from_args(args: &Vec<String>) -> (config: Config)
        ensures
            args.len() > 1 ==> config.world_model@ == args[1]@,
            args.len() <= 1 ==> config.world_model@ == default_world_model(),
    {
        if args.len() > 1 {
            Config { world_model: args[1].clone() }
        } else {
            Config::default()
        }
    }
}

impl Default for Config {
    fn default() -> (config: Config)
        ensures
            config.world_model@ == default_world_model(),
    {
        Config { world_model: "vox/colors.vox".to_owned() }
    }
}

} // verus!
