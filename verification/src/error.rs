//! Turns git's stderr into a sentence a person understands.
//!
//! Raw stderr never reaches the screen first: "fatal: Could not read from remote repository."
//! tells nobody what to do. The raw text stays in the job's log, behind "see details"; what
//! changes is what the interface says **first**: one sentence and, where there is one, the next
//! thing to do.
//!
//! The order of the checks matters. Git stacks its messages: a `Permission denied (publickey)`
//! comes followed by the generic `Could not read from remote repository`, and matching the
//! generic one first would lose the good information. So the specific always comes first.
use vstd::prelude::*;
use crate::text::{chars_of, contains, contains_exec, string_of};

verus! {

/// The category of a failure: the UI decides on it, the tests do not depend on the wording.
#[derive(Debug, Clone, Copy, PartialEq, Eq)]
pub enum FailureKind {
    /// DNS did not resolve.
    UnknownHost,
    /// The SSH server's identity does not match (or was never accepted).
    HostKey,
    /// SSH key or password refused.
    AuthDenied,
    /// A credential was needed and there was no way to ask for it.
    CredentialsNeeded,
    /// The repository does not exist, or exists and we cannot see it: for git the same 404.
    NotFound,
    /// Authenticated, but without access.
    Forbidden,
    /// Network down, connection dropped, timeout.
    Network,
    /// The destination folder already has something in it.
    DestinationNotEmpty,
    /// The branch asked for does not exist on the remote.
    BranchNotFound,
    /// A repository with LFS, and `git-lfs` is not installed.
    LfsMissing,
    /// Not recognised: the sentence is generic and the raw text stays available.
    Unknown,
}

#[derive(Debug, Clone)]
pub struct Diagnosis {
    pub kind: FailureKind,
    /// A short sentence, in Portuguese, without jargon.
    pub message: String,
    /// The next thing to do. `None` when there is no honest advice to give.
    pub action: Option<String>,
}

pub struct DiagnosisView {
    pub kind: FailureKind,
    pub message: Seq<char>,
    pub action: Option<Seq<char>>,
}

impl View for Diagnosis {
    type V = DiagnosisView;

    open spec fn view(&self) -> DiagnosisView {
        DiagnosisView {
            kind: self.kind,
            message: self.message@,
            action: match self.action {
                Some(a) => Some(a@),
                None => None,
            },
        }
    }
}

pub open spec fn said(kind: FailureKind, message: Seq<char>, action: Option<Seq<char>>) -> DiagnosisView {
    DiagnosisView { kind, message, action }
}

pub open spec fn has(t: Seq<char>, needle: Seq<char>) -> bool {
    contains(t, needle)
}

/// What a lowercased stderr says, the specific before the generic.
pub open spec fn diagnosis_of(t: Seq<char>) -> DiagnosisView {
    if has(t, "could not resolve host"@) || has(t, "name or service not known"@) {
        said(FailureKind::UnknownHost, "não encontrei esse servidor"@, Some("confira o endereço do repositório e se você está conectado à internet"@))
    } else if has(t, "remote host identification has changed"@) {
        said(FailureKind::HostKey, "a identidade do servidor mudou desde a última vez"@, Some("isto também é o que um ataque de intermediário parece. confirme com quem administra o servidor antes de continuar"@))
    } else if has(t, "host key verification failed"@) {
        said(FailureKind::HostKey, "não confio na identidade desse servidor ainda"@, Some("conecte-se uma vez pelo terminal (`ssh -T git@servidor`) para conferir e aceitar a chave do host"@))
    } else if has(t, "connection timed out"@) || has(t, "operation timed out"@) || has(t, "connection refused"@) || has(t, "network is unreachable"@) || has(t, "failed to connect"@) || has(t, "could not connect"@) || has(t, "early eof"@) || has(t, "rpc failed"@) {
        said(FailureKind::Network, "a conexão com o servidor falhou"@, Some("verifique a rede, o proxy e a VPN, e tente de novo"@))
    } else if has(t, "permission denied (publickey"@) || has(t, "permission denied (publickey,"@) {
        said(FailureKind::AuthDenied, "o servidor recusou sua chave SSH"@, Some("confira se a chave certa está no ssh-agent e se a chave pública está cadastrada no servidor"@))
    } else if has(t, "authentication failed"@) || has(t, "http basic: access denied"@) || has(t, "invalid username or password"@) || has(t, "password authentication failed"@) {
        said(FailureKind::AuthDenied, "usuário ou senha recusados"@, Some("muitos servidores já não aceitam senha: use um token de acesso pessoal no lugar dela"@))
    } else if has(t, "terminal prompts disabled"@) || has(t, "could not read username"@) {
        said(FailureKind::CredentialsNeeded, "o repositório exige credencial e não consegui pedi-la"@, Some("tente de novo; se o pedido de senha não aparecer, configure um credential helper do git"@))
    } else if has(t, "repository not found"@) || (has(t, "not found"@) && has(t, "fatal: repository"@)) {
        said(FailureKind::NotFound, "esse repositório não existe (ou você não tem acesso a ele)"@, Some("confira a URL. em repositório privado, o servidor responde a mesma coisa para quem não tem acesso"@))
    } else if has(t, "403 forbidden"@) || has(t, "you don't have permission"@) || has(t, "access denied"@) {
        said(FailureKind::Forbidden, "você não tem permissão nesse repositório"@, Some("peça acesso a quem administra o repositório"@))
    } else if has(t, "remote branch"@) && has(t, "not found in upstream"@) {
        said(FailureKind::BranchNotFound, "essa branch não existe no repositório remoto"@, Some("deixe o campo de branch vazio para clonar a branch padrão"@))
    } else if has(t, "already exists and is not an empty directory"@) {
        said(FailureKind::DestinationNotEmpty, "a pasta de destino já existe e não está vazia"@, Some("escolha outro nome de pasta"@))
    } else if has(t, "git-lfs"@) && (has(t, "not found"@) || has(t, "is not a git command"@)) {
        said(FailureKind::LfsMissing, "esse repositório usa git-lfs, que não está instalado"@, Some("instale o git-lfs e tente de novo"@))
    } else if has(t, "could not read from remote repository"@) {
        said(FailureKind::NotFound, "não consegui ler esse repositório"@, Some("ou o endereço está errado, ou sua chave não tem acesso a ele"@))
    } else {
        said(FailureKind::Unknown, "o git não conseguiu concluir a operação"@, None)
    }
}

/// Advice comes exactly with a recognised failure: what is not recognised gets none, since a
/// guess would send the user to the wrong place.
pub proof fn law_advice_only_when_recognised(t: Seq<char>)
    ensures
        diagnosis_of(t).action is None <==> diagnosis_of(t).kind == FailureKind::Unknown,
{
}

/// A diagnosis ignores the case of ASCII text: lowercasing it first changes nothing (the
/// lowercased text is ASCII and lowercases to itself), and two texts that differ only in the
/// case of their letters get the same diagnosis.
pub proof fn law_diagnosis_ignores_ascii_case(t: Seq<char>, u: Seq<char>)
    requires
        all_ascii(t),
        all_ascii(u),
    ensures
        all_ascii(ascii_lower(t)),
        ascii_lower(ascii_lower(t)) == ascii_lower(t),
        ascii_lower(t) == ascii_lower(u) ==> diagnosis_of(ascii_lower(t)) == diagnosis_of(ascii_lower(u)),
{
    assert forall|i: int| 0 <= i < ascii_lower(t).len() implies (#[trigger] ascii_lower(t)[i] as u32) < 128 by {
        assert(ascii_lower(t)[i] == ascii_lower_char(t[i]));
        assert((t[i] as u32) < 128);
    }
    assert(ascii_lower(ascii_lower(t)) =~= ascii_lower(t));
}

/// What `str::to_lowercase` makes of a text.
pub uninterp spec fn lowercase(s: Seq<char>) -> Seq<char>;

/// Every char is ASCII.
pub open spec fn all_ascii(s: Seq<char>) -> bool {
    forall|i: int| 0 <= i < s.len() ==> (#[trigger] s[i] as u32) < 128
}

pub open spec fn ascii_lower_char(c: char) -> char {
    if 'A' <= c && c <= 'Z' {
        ((c as u32) + 32) as char
    } else {
        c
    }
}

/// `A`–`Z` made `a`–`z`, every other char kept.
pub open spec fn ascii_lower(s: Seq<char>) -> Seq<char> {
    s.map_values(|c: char| ascii_lower_char(c))
}

/// `str::to_lowercase`, as chars. The contract names the result as a function of the text and
/// states what std does to ASCII text (it lowercases `A`–`Z` and keeps the rest, the part of the
/// Unicode mapping that ASCII has); the rest of the Unicode case mapping is left unsaid.
#[verifier::external_body]
pub(crate) fn to_lowercase(s: &str) -> (v: Vec<char>)
    ensures
        v@ == lowercase(s@),
        all_ascii(s@) ==> v@ == ascii_lower(s@),
{
    s.to_lowercase().chars().collect()
}

fn has_exec(text: &Vec<char>, needle: &str) -> (b: bool)
    ensures
        b == has(text@, needle@),
{
    contains_exec(text, &chars_of(needle))
}

fn owned(s: &str) -> (r: String)
    ensures
        r@ == s@,
{
    string_of(&chars_of(s))
}

impl Diagnosis {
    fn new(kind: FailureKind, message: &str, action: Option<&str>) -> (d: Self)
        ensures
            d@ == said(
                kind,
                message@,
                match action {
                    Some(a) => Some(a@),
                    None => None,
                },
            ),
    {
        let action = match action {
            Some(a) => Some(owned(a)),
            None => None,
        };
        Diagnosis { kind, message: owned(message), action }
    }
}

/// Reads the stderr gathered so far and decides what to say. Git mixes cases depending on who
/// wrote the message (curl, ssh, itself), so the text is lowercased first.
pub fn diagnose(stderr: &str) -> (d: Diagnosis)
    ensures
        d@ == diagnosis_of(lowercase(stderr@)),
        all_ascii(stderr@) ==> d@ == diagnosis_of(ascii_lower(stderr@)),
{
    let text = to_lowercase(stderr);
    diagnose_lowered(&text)
}

/// What [`diagnose`] says of a stderr already lowercased.
pub fn diagnose_lowered(text: &Vec<char>) -> (d: Diagnosis)
    ensures
        d@ == diagnosis_of(text@),
{
    if has_exec(&text, "could not resolve host") || has_exec(&text, "name or service not known") {
        return Diagnosis::new(
            FailureKind::UnknownHost,
            "não encontrei esse servidor",
            Some("confira o endereço do repositório e se você está conectado à internet"),
        );
    }
    if has_exec(&text, "remote host identification has changed") {
        return Diagnosis::new(
            FailureKind::HostKey,
            "a identidade do servidor mudou desde a última vez",
            Some("isto também é o que um ataque de intermediário parece. confirme com quem administra o servidor antes de continuar"),
        );
    }
    if has_exec(&text, "host key verification failed") {
        return Diagnosis::new(
            FailureKind::HostKey,
            "não confio na identidade desse servidor ainda",
            Some("conecte-se uma vez pelo terminal (`ssh -T git@servidor`) para conferir e aceitar a chave do host"),
        );
    }
    if has_exec(&text, "connection timed out") || has_exec(&text, "operation timed out") || has_exec(&text, "connection refused") || has_exec(&text, "network is unreachable") || has_exec(&text, "failed to connect") || has_exec(&text, "could not connect") || has_exec(&text, "early eof") || has_exec(&text, "rpc failed") {
        return Diagnosis::new(
            FailureKind::Network,
            "a conexão com o servidor falhou",
            Some("verifique a rede, o proxy e a VPN, e tente de novo"),
        );
    }
    if has_exec(&text, "permission denied (publickey") || has_exec(&text, "permission denied (publickey,") {
        return Diagnosis::new(
            FailureKind::AuthDenied,
            "o servidor recusou sua chave SSH",
            Some("confira se a chave certa está no ssh-agent e se a chave pública está cadastrada no servidor"),
        );
    }
    if has_exec(&text, "authentication failed") || has_exec(&text, "http basic: access denied") || has_exec(&text, "invalid username or password") || has_exec(&text, "password authentication failed") {
        return Diagnosis::new(
            FailureKind::AuthDenied,
            "usuário ou senha recusados",
            Some("muitos servidores já não aceitam senha: use um token de acesso pessoal no lugar dela"),
        );
    }
    if has_exec(&text, "terminal prompts disabled") || has_exec(&text, "could not read username") {
        return Diagnosis::new(
            FailureKind::CredentialsNeeded,
            "o repositório exige credencial e não consegui pedi-la",
            Some("tente de novo; se o pedido de senha não aparecer, configure um credential helper do git"),
        );
    }
    if has_exec(&text, "repository not found") || (has_exec(&text, "not found") && has_exec(&text, "fatal: repository")) {
        return Diagnosis::new(
            FailureKind::NotFound,
            "esse repositório não existe (ou você não tem acesso a ele)",
            Some("confira a URL. em repositório privado, o servidor responde a mesma coisa para quem não tem acesso"),
        );
    }
    if has_exec(&text, "403 forbidden") || has_exec(&text, "you don't have permission") || has_exec(&text, "access denied") {
        return Diagnosis::new(
            FailureKind::Forbidden,
            "você não tem permissão nesse repositório",
            Some("peça acesso a quem administra o repositório"),
        );
    }
    if has_exec(&text, "remote branch") && has_exec(&text, "not found in upstream") {
        return Diagnosis::new(
            FailureKind::BranchNotFound,
            "essa branch não existe no repositório remoto",
            Some("deixe o campo de branch vazio para clonar a branch padrão"),
        );
    }
    if has_exec(&text, "already exists and is not an empty directory") {
        return Diagnosis::new(
            FailureKind::DestinationNotEmpty,
            "a pasta de destino já existe e não está vazia",
            Some("escolha outro nome de pasta"),
        );
    }
    if has_exec(&text, "git-lfs") && (has_exec(&text, "not found") || has_exec(&text, "is not a git command")) {
        return Diagnosis::new(
            FailureKind::LfsMissing,
            "esse repositório usa git-lfs, que não está instalado",
            Some("instale o git-lfs e tente de novo"),
        );
    }
    if has_exec(&text, "could not read from remote repository") {
        return Diagnosis::new(
            FailureKind::NotFound,
            "não consegui ler esse repositório",
            Some("ou o endereço está errado, ou sua chave não tem acesso a ele"),
        );
    }
    // No advice: we do not know what happened, and a guess would send the user to the wrong
    // place. The raw stderr is one click away.
    Diagnosis::new(FailureKind::Unknown, "o git não conseguiu concluir a operação", None)
}

} // verus!
