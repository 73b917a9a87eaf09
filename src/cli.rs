//! The commands that the tool understands, as plain data, and the decisions
//! that follow from them before any file is touched.
use vstd::prelude::*;

verus! {

/// The command line: a command, whether to keep the table quiet, and a list
/// to use instead of the default one.
#[derive(Debug)]
pub struct Cli {
    pub command: Commands,
    pub quiet: bool,
    pub list: Option<String>,
}

#[derive(Debug)]
#[allow(inconsistent_fields)]
pub enum Commands {
    /// Add, delete, or modify books in a list.
    Book { command: BookCommand },
    /// Edit the registry of lists.
    Config { command: ConfigCommand },
    /// Show the table of books.
    List,
    /// Set the weight of every book to 1.
    Reset { auto_confirm: bool },
    /// Sort the list by a column.
    Sort { input: String },
    /// Draw a book at random, by weight.
    Wych,
}

#[derive(Debug)]
pub enum BookCommand {
    /// Add a book.
    Add { author: String, title: String },
    /// Delete a book, named by title or index.
    Delete { input: String, auto_confirm: bool },
    /// Change the weight of a book, named by title or index.
    Weight { input: String, weight: u8 },
}

#[derive(Debug)]
pub enum ConfigCommand {
    /// Copy a list to a new list.
    Copy { from: String, to: String, overwrite: bool },
    /// Choose the default list.
    Default { list: String },
    /// Delete a list.
    Delete { list: String },
    /// Show the names of all lists.
    List,
    /// Make a new, empty list.
    New { name: String },
}

/// Whether the table is shown after `command`: always after `list`, never
/// after a change to the registry, otherwise unless asked to keep quiet.
pub open spec fn shows_table(command: Commands, quiet: bool) -> bool {
    match command {
        Commands::List => true,
        Commands::Config { .. } => false,
        _ => !quiet,
    }
}

impl Commands {
    /// Whether the table is shown after this command.
    pub fn prints_table(&self, quiet: bool) -> (r: bool)
        ensures
            r == shows_table(*self, quiet),
    {
        match self {
            Commands::List => true,
            Commands::Config { .. } => false,
            _ => !quiet,
        }
    }
}

/// The answer to a `[Y/n]` question, already trimmed: `Y` or `y` is yes, `N`
/// or `n` is no, anything else an error.
pub fn parse_choice(answer: &str) -> (r: Result<bool, &'static str>)
    ensures
        answer@ == "Y"@ || answer@ == "y"@ ==> r == Ok::<bool, &'static str>(true),
        answer@ == "N"@ || answer@ == "n"@ ==> r == Ok::<bool, &'static str>(false),
        r is Err <==> !(answer@ == "Y"@ || answer@ == "y"@ || answer@ == "N"@ || answer@ == "n"@),
        r matches Err(e) ==> e@ == "Invalid user input. Valid choices are [Y/n]"@,
{
    proof {
        reveal_strlit("Y");
        reveal_strlit("y");
        reveal_strlit("N");
        reveal_strlit("n");
        assert("N"@[0] != "Y"@[0] && "N"@[0] != "y"@[0]);
        assert("n"@[0] != "Y"@[0] && "n"@[0] != "y"@[0]);
    }
    let given = answer.to_owned();
    if given == "Y".to_owned() || given == "y".to_owned() {
        Ok(true)
    } else if given == "N".to_owned() || given == "n".to_owned() {
        Ok(false)
    } else {
        Err("Invalid user input. Valid choices are [Y/n]")
    }
}

} // verus!
