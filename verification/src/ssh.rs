//! The SSH client configuration block that multiplexes the connections to the
//! headnode, and the test of whether a configuration already holds it.
use vstd::prelude::*;
use crate::text::{contains_str, has_infix, push_str, to_chars, to_string};

verus! {

/// The comment line that marks the block.
pub open spec fn block_marker() -> Seq<char> {
    "# monitor: headnode connection multiplexing"@
}

/// Whether an SSH configuration already holds the block (by its marker).
pub fn has_controlmaster(config: &str) -> (b: bool)
    ensures
        b == has_infix(config@, block_marker()),
{
    contains_str(&to_chars(config), "# monitor: headnode connection multiplexing")
}

/// The block appended to the SSH configuration: a `Host headnode` entry with
/// `ControlMaster auto`, its control sockets under `control_dir`, kept 60 s.
pub open spec fn block_text(control_dir: Seq<char>) -> Seq<char> {
    "\n"@ + block_marker() + "\nHost headnode\n    ControlMaster auto\n    ControlPath "@
        + control_dir + "/cm-%r@%h:%p\n    ControlPersist 60s\n"@
}

pub fn controlmaster_block(control_dir: &str) -> (r: String)
    ensures
        r@ == block_text(control_dir@),
{
    let mut out: Vec<char> = Vec::new();
    push_str(&mut out, "\n");
    push_str(&mut out, "# monitor: headnode connection multiplexing");
    push_str(&mut out, "\nHost headnode\n    ControlMaster auto\n    ControlPath ");
    push_str(&mut out, control_dir);
    push_str(&mut out, "/cm-%r@%h:%p\n    ControlPersist 60s\n");
    proof {
        assert(out@ =~= block_text(control_dir@));
    }
    to_string(&out)
}

/// What to append to an SSH configuration holding `existing`: the block,
/// unless the configuration already holds it.
pub fn controlmaster_update(existing: &str, control_dir: &str) -> (r: Option<String>)
    ensures
        match r {
            Some(b) => !has_infix(existing@, block_marker()) && b@ == block_text(control_dir@),
            None => has_infix(existing@, block_marker()),
        },
{
    if has_controlmaster(existing) {
        None
    } else {
        Some(controlmaster_block(control_dir))
    }
}

/// The block is added once: a configuration with the block appended holds
/// it, so a second update appends nothing.
pub proof fn law_block_added_once(config: Seq<char>, control_dir: Seq<char>)
    ensures
        has_infix(config + block_text(control_dir), block_marker()),
{
    reveal_strlit("\n");
    let m = block_marker();
    let b = block_text(control_dir);
    let head = "\n"@ + m;
    assert(b == head + ("\nHost headnode\n    ControlMaster auto\n    ControlPath "@ + control_dir
        + "/cm-%r@%h:%p\n    ControlPersist 60s\n"@));
    let s = config + b;
    let i: int = config.len() as int + 1;
    assert forall|k: int| 0 <= k < m.len() implies s[i + k] == m[k] by {
        assert(s[i + k] == b[k + 1]);
        assert(b[k + 1] == head[k + 1]);
    }
    assert(s.subrange(i, i + block_marker().len()) =~= block_marker());
    assert(crate::text::occurs_at(s, block_marker(), i as int));
}

} // verus!
