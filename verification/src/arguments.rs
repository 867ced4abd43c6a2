use vstd::prelude::*;

verus! {

/// Why the command line could not be turned into [`Arguments`].
#[derive(Debug)]
pub enum ArgumentError {
    /// No configuration path was given.
    NotEnoughArgs,
}

/// What the program was asked to do.
#[derive(Debug)]
pub struct Arguments {
    /// Path of the JSON configuration file.
    pub configuration_path: String,
}

impl Arguments {
    /// Reads the arguments that follow the program name: the first one is
    /// the configuration path, the others are ignored.
    pub fn parse(args: Vec<String>) -> (result: Result<Self, ArgumentError>)
        ensures
            args.len() == 0 <==> result is Err,
            result matches Err(e) ==> e == ArgumentError::NotEnoughArgs,
            result matches Ok(a) ==> a.configuration_path == args@[0],
    {
        let mut args = args;
        if args.len() == 0 {
            return Err(ArgumentError::NotEnoughArgs);
        }
        let path = args.swap_remove(0);
        Ok(Arguments { configuration_path: path })
    }
}

} // verus!
