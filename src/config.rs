use vstd::prelude::*;

verus! {

/// What the interpreter is asked to run: the path of the program file.
pub struct Config {
    pub brainfuck_file_path: String,
}

impl Config {
    /// Reads the configuration from the command-line arguments, the first
    /// being the program's own name. Fails when no path follows it.
    pub fn build(args: &[String]) -> (r: Result<Config, &'static str>)
        ensures
            args@.len() < 2 <==> r is Err,
            r matches Ok(c) ==> c.brainfuck_file_path@ == args@[1]@,
    {
        if args.len() < 2 {
            return Err("no path to brainfuck file provided.");
        }
        let brainfuck_file_path = args[1].clone();
        Ok(Config { brainfuck_file_path })
    }
}

} // verus!
