//! The command line's own rules: its flags, and which folder `--repo` names.
use vstd::prelude::*;
use crate::fs::Canonical;
use crate::text::{append, chars_of, string_of};

verus! {

/// The flags of `porc`: a port (taken, another is picked), no browser, a repository to open,
/// and the embedded terminal, off unless asked.
#[derive(Debug, Clone)]
pub struct Cli {
    pub port: Option<u16>,
    pub no_browser: bool,
    pub repo: Option<String>,
    pub enable_terminal: bool,
}

pub open spec fn repo_dir_of(requested: Seq<char>, c: Canonical) -> Result<Seq<char>, Seq<char>> {
    match c {
        Canonical::Found { path, is_dir } => if is_dir {
            Ok(path@)
        } else {
            Err(path@ + " não é um diretório"@)
        },
        _ => Err("não encontrei o caminho "@ + requested),
    }
}

/// The folder `--repo` names, from the path as typed and what making it canonical gave: the
/// canonical folder, or the sentence that explains why not.
pub fn repo_dir(requested: &str, canonical: Canonical) -> (r: Result<String, String>)
    ensures
        match r {
            Ok(p) => repo_dir_of(requested@, canonical) == Ok::<Seq<char>, Seq<char>>(p@),
            Err(m) => repo_dir_of(requested@, canonical) == Err::<Seq<char>, Seq<char>>(m@),
        },
{
    match canonical {
        Canonical::Found { path, is_dir } => {
            if is_dir {
                Ok(path)
            } else {
                let mut v = chars_of(path.as_str());
                append(&mut v, &chars_of(" não é um diretório"));
                Err(string_of(&v))
            }
        },
        _ => {
            let mut v = chars_of("não encontrei o caminho ");
            append(&mut v, &chars_of(requested));
            Err(string_of(&v))
        },
    }
}

} // verus!
