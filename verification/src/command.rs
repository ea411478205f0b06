//! The fixed local management-interface command whose captured output feeds
//! the address extractor.  Running the command is process I/O and belongs to
//! the embedding application; this module only pins down what is run.

use vstd::prelude::*;

verus! {

/// Invocation of the local management-interface tool: a program name and its
/// arguments.  The embedding application spawns the process and captures its
/// standard output.
pub struct CommandIpmi {
    pub command: String,
    pub arguments: Vec<String>,
}

impl CommandIpmi {
    /// The fixed command line `ipmitool lan print`, whose output lists the
    /// management controller's network configuration.
    pub fn run() -> (r: CommandIpmi)
        ensures
            r.command@ == "ipmitool"@,
            r.arguments@.len() == 2,
            r.arguments@[0]@ == "lan"@,
            r.arguments@[1]@ == "print"@,
    {
        let command: String = "ipmitool".to_owned();
        let mut arguments: Vec<String> = Vec::new();
        arguments.push("lan".to_owned());
        arguments.push("print".to_owned());
        CommandIpmi { command, arguments }
    }
}

/// The bytes of the sentinel text `Cannot get the IP address.`.
pub open spec fn spec_sentinel() -> Seq<u8> {
    seq![67u8, 97, 110, 110, 111, 116, 32, 103, 101, 116, 32, 116, 104, 101, 32, 73, 80, 32, 97,
        100, 100, 114, 101, 115, 115, 46]
}

/// The text handed to the address extractor: the tool's captured output
/// when it decoded as text, and otherwise a fixed sentinel that carries no
/// labelled address, so that extraction then fails rather than the program.
pub fn status_text(decoded: Option<Vec<u8>>) -> (r: Vec<u8>)
    ensures
        match decoded {
            Some(v) => r@ == v@,
            None => r@ == spec_sentinel(),
        },
{
    match decoded {
        Some(v) => v,
        None => {
            let mut v: Vec<u8> = Vec::new();
            v.push(67);
            v.push(97);
            v.push(110);
            v.push(110);
            v.push(111);
            v.push(116);
            v.push(32);
            v.push(103);
            v.push(101);
            v.push(116);
            v.push(32);
            v.push(116);
            v.push(104);
            v.push(101);
            v.push(32);
            v.push(73);
            v.push(80);
            v.push(32);
            v.push(97);
            v.push(100);
            v.push(100);
            v.push(114);
            v.push(101);
            v.push(115);
            v.push(115);
            v.push(46);
            assert(v@ =~= spec_sentinel());
            v
        },
    }
}

} // verus!
