use vstd::prelude::*;
use vstd::string::*;

verus! {

/// The flag that `hash-object` asks for.
pub open spec fn write_flag() -> Seq<char> {
    "-w"@
}

/// The flag that `cat-file` asks for.
pub open spec fn print_flag() -> Seq<char> {
    "-p"@
}

/// The flag that `ls-tree` asks for.
pub open spec fn names_flag() -> Seq<char> {
    "---name-only"@
}

/// Reads the arguments of `hash-object`: the flag `-w`, then the name of
/// the file to store. What follows the file's name is not read. Gives the
/// file's name, or the message for arguments that are not these.
pub fn hash_object(args: &[String]) -> (r: Result<String, String>)
    requires
        args@.len() > 0,
    ensures
        match r {
            Ok(file) => args@[0]@ == write_flag() && args@.len() > 1 && file@ == args@[1]@,
            Err(message) => !(args@[0]@ == write_flag() && args@.len() > 1) && message@
                == "Error: args[0] {}, not a valid hash-object command"@,
        },
{
    if args.len() > 1 && args[0] == String::from_str("-w") {
        Ok(args[1].clone())
    } else {
        Err(String::from_str("Error: args[0] {}, not a valid hash-object command"))
    }
}

/// Reads the arguments of `cat-file`: the flag `-p`, then the text of a
/// digest, and nothing else. Gives the digest's text, or the message for
/// arguments that are not these.
pub fn cat_file(args: &[String]) -> (r: Result<String, String>)
    requires
        args@.len() > 0,
    ensures
        match r {
            Ok(sha) => args@[0]@ == print_flag() && args@.len() == 2 && sha@ == args@[1]@,
            Err(message) => !(args@[0]@ == print_flag() && args@.len() == 2) && message@
                == "Error: args[0] {}, not a valid cat-file command"@,
        },
{
    if args.len() == 2 && args[0] == String::from_str("-p") {
        Ok(args[1].clone())
    } else {
        Err(String::from_str("Error: args[0] {}, not a valid cat-file command"))
    }
}

/// Reads the arguments of `ls-tree`: the flag `---name-only`, then the
/// text of a digest, and nothing else. Gives the digest's text, or the
/// message for arguments that are not these.
pub fn ls_tree(args: &[String]) -> (r: Result<String, String>)
    requires
        args@.len() > 0,
    ensures
        match r {
            Ok(sha) => args@[0]@ == names_flag() && args@.len() == 2 && sha@ == args@[1]@,
            Err(message) => !(args@[0]@ == names_flag() && args@.len() == 2) && message@
                == "Error: args[0] {}, not a valid ls-tree command"@,
        },
{
    if args.len() == 2 && args[0] == String::from_str("---name-only") {
        Ok(args[1].clone())
    } else {
        Err(String::from_str("Error: args[0] {}, not a valid ls-tree command"))
    }
}

} // verus!
