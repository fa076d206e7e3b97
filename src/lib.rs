//! File and directory names: normalizes names by configurable rules and keeps
//! a reversible history of every rename.
use vstd::prelude::*;

pub mod compare;
pub mod cipher;
pub mod config;
pub mod decode;
pub mod engine;
pub mod ledger;
pub mod paths;
pub mod rules;
pub mod text;

pub use compare::{fname_compare, stem_ext};
pub use config::{config_add, config_delete, config_list, unames};
pub use engine::{compute_target_name, fdn_target};
pub use ledger::{Ledger, Record};
pub use paths::{dir_base, directory_order, is_hidden, is_hidden_unix, without_excluded, DirBase};
pub use rules::{Rules, Separator, TermWord, ToSepWord};
pub use text::{remove_continuous, remove_prefix_sep_suffix_sep};

verus! {

/// The command line, as plain values.
pub struct Args {
    pub files: Option<Vec<String>>,
    pub file_path: String,
    pub in_place: bool,
    pub max_depth: usize,
    pub filetype: String,
    pub not_ignore_hidden: bool,
    pub exclude_path: Vec<String>,
    pub reverse: bool,
    pub reverse_chainly: bool,
    pub align: bool,
    pub version: bool,
    pub command: Option<Commands>,
}

/// The subcommands.
pub enum Commands {
    Config { list: bool, add: Option<String>, delete: Option<String> },
    Mv { inputs: Vec<String> },
}

/// A batch of explicit targets whose length differs from that of the batch
/// of entries.
#[derive(Debug, PartialEq, Eq, Structural)]
pub struct LengthMismatch {
    pub origins: usize,
    pub targets: usize,
}

/// Pairs each entry with its explicit target: none at all when no targets
/// are given, else one each, and an error when the counts differ.
pub fn targets_for(origins: usize, targets: Vec<String>) -> (r: Result<
    Vec<Option<String>>,
    LengthMismatch,
>)
    ensures
        targets@.len() == 0 ==> r is Ok && r->Ok_0@.len() == origins && forall|i: int|
            0 <= i < origins ==> #[trigger] r->Ok_0@[i] is None,
        targets@.len() != 0 && targets@.len() != origins ==> r == Err::<Vec<Option<String>>, _>(
            LengthMismatch { origins, targets: targets@.len() as usize },
        ),
        targets@.len() != 0 && targets@.len() == origins ==> r is Ok && r->Ok_0@.len() == origins
            && forall|i: int| 0 <= i < origins ==> #[trigger] r->Ok_0@[i] == Some(targets@[i]),
{
    let n = targets.len();
    if n == 0 {
        let mut v: Vec<Option<String>> = Vec::new();
        let mut i: usize = 0;
        while i < origins
            invariant
                i <= origins,
                v@.len() == i,
                forall|m: int| 0 <= m < i ==> #[trigger] v@[m] is None,
            decreases origins - i,
        {
            v.push(None);
            i = i + 1;
        }
        return Ok(v);
    }
    if n != origins {
        return Err(LengthMismatch { origins, targets: n });
    }
    let mut v: Vec<Option<String>> = Vec::new();
    let mut i: usize = 0;
    while i < n
        invariant
            n == targets@.len(),
            i <= n,
            v@.len() == i,
            forall|m: int| 0 <= m < i ==> #[trigger] v@[m] == Some(targets@[m]),
        decreases n - i,
    {
        v.push(Some(targets[i].clone()));
        i = i + 1;
    }
    Ok(v)
}

/// Whether an entry takes part in a batch: hidden entries only when asked.
pub fn selected(path: &str, not_ignore_hidden: bool) -> (r: bool)
    ensures
        r == (not_ignore_hidden || !paths::is_hidden_spec(path@)),
{
    not_ignore_hidden || !is_hidden(path)
}

/// Whether a forward rename is carried out and recorded: only when the name
/// changes and changes are applied.
pub fn should_apply(origin: &str, target: &str, in_place: bool) -> (r: bool)
    ensures
        r == (in_place && origin@ != target@),
{
    in_place && !text::text_eq(origin, target)
}

} // verus!
