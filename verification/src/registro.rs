//! Registry writes described as data.
//!
//! The library never touches the registry: it says which writes to make, and
//! the program carries them out in order. `Registro` is the model against
//! which the laws about settings are stated.

use vstd::prelude::*;
use vstd::string::StringExecFns;

verus! {

/// A registry value: a string (`REG_SZ`) or a 32-bit number (`REG_DWORD`).
#[derive(Debug, PartialEq, Eq)]
pub enum Valor {
    Texto(String),
    Numero(u32),
}

pub enum ValorModelo {
    Texto(Seq<char>),
    Numero(u32),
}

impl View for Valor {
    type V = ValorModelo;

    open spec fn view(&self) -> ValorModelo {
        match self {
            Valor::Texto(t) => ValorModelo::Texto(t@),
            Valor::Numero(n) => ValorModelo::Numero(*n),
        }
    }
}

/// One change to the registry (keys under HKEY_CURRENT_USER).
#[derive(Debug, PartialEq, Eq)]
pub enum Operacao {
    /// Delete `chave` with everything below it; a missing key is no error.
    ApagarArvore { chave: String },
    /// Create `chave` (and the keys above it) if needed and set its value `nome`.
    Gravar { chave: String, nome: String, valor: Valor },
}

pub enum OperacaoModelo {
    ApagarArvore { chave: Seq<char> },
    Gravar { chave: Seq<char>, nome: Seq<char>, valor: ValorModelo },
}

impl View for Operacao {
    type V = OperacaoModelo;

    open spec fn view(&self) -> OperacaoModelo {
        match self {
            Operacao::ApagarArvore { chave } => OperacaoModelo::ApagarArvore { chave: chave@ },
            Operacao::Gravar { chave, nome, valor } => OperacaoModelo::Gravar {
                chave: chave@,
                nome: nome@,
                valor: valor@,
            },
        }
    }
}

/// An operation, and whether its failure stops the whole sequence
/// (`obrigatorio`) or is ignored.
#[derive(Debug, PartialEq, Eq)]
pub struct Passo {
    pub operacao: Operacao,
    pub obrigatorio: bool,
}

pub struct PassoModelo {
    pub operacao: OperacaoModelo,
    pub obrigatorio: bool,
}

impl View for Passo {
    type V = PassoModelo;

    open spec fn view(&self) -> PassoModelo {
        PassoModelo { operacao: self.operacao@, obrigatorio: self.obrigatorio }
    }
}

pub open spec fn modelo_passos(passos: Seq<Passo>) -> Seq<PassoModelo> {
    passos.map_values(|p: Passo| p@)
}

pub open spec fn gravacao(
    chave: Seq<char>,
    nome: Seq<char>,
    valor: ValorModelo,
    obrigatorio: bool,
) -> PassoModelo {
    PassoModelo { operacao: OperacaoModelo::Gravar { chave, nome, valor }, obrigatorio }
}

pub open spec fn remocao(chave: Seq<char>, obrigatorio: bool) -> PassoModelo {
    PassoModelo { operacao: OperacaoModelo::ApagarArvore { chave }, obrigatorio }
}

/// A step that sets the string value `nome` of `chave`.
pub fn gravar_texto(chave: &str, nome: &str, valor: String, obrigatorio: bool) -> (r: Passo)
    ensures
        r@ == gravacao(chave@, nome@, ValorModelo::Texto(valor@), obrigatorio),
{
    Passo {
        operacao: Operacao::Gravar {
            chave: String::from_str(chave),
            nome: String::from_str(nome),
            valor: Valor::Texto(valor),
        },
        obrigatorio,
    }
}

/// A step that sets the number value `nome` of `chave`.
pub fn gravar_numero(chave: &str, nome: &str, valor: u32, obrigatorio: bool) -> (r: Passo)
    ensures
        r@ == gravacao(chave@, nome@, ValorModelo::Numero(valor), obrigatorio),
{
    Passo {
        operacao: Operacao::Gravar {
            chave: String::from_str(chave),
            nome: String::from_str(nome),
            valor: Valor::Numero(valor),
        },
        obrigatorio,
    }
}

/// A step that deletes `chave` and everything below it.
pub fn apagar_arvore(chave: &str, obrigatorio: bool) -> (r: Passo)
    ensures
        r@ == remocao(chave@, obrigatorio),
{
    Passo { operacao: Operacao::ApagarArvore { chave: String::from_str(chave) }, obrigatorio }
}

// ---------------------------------------------------------------------------
// The model
// ---------------------------------------------------------------------------

/// The keys that exist and the values they hold, by (key, value name).
pub struct Registro {
    pub chaves: Set<Seq<char>>,
    pub valores: Map<(Seq<char>, Seq<char>), ValorModelo>,
}

/// `c` is `raiz` or a key below it.
pub open spec fn na_arvore(c: Seq<char>, raiz: Seq<char>) -> bool {
    c == raiz || (raiz + seq!['\\']).is_prefix_of(c)
}

/// The registry after one operation that succeeded.
pub open spec fn executar(reg: Registro, op: OperacaoModelo) -> Registro {
    match op {
        OperacaoModelo::ApagarArvore { chave } => Registro {
            chaves: reg.chaves.filter(|c: Seq<char>| !na_arvore(c, chave)),
            valores: reg.valores.restrict(
                reg.valores.dom().filter(|kn: (Seq<char>, Seq<char>)| !na_arvore(kn.0, chave)),
            ),
        },
        OperacaoModelo::Gravar { chave, nome, valor } => Registro {
            chaves: reg.chaves.insert(chave),
            valores: reg.valores.insert((chave, nome), valor),
        },
    }
}

/// The registry after a sequence of steps that all succeeded.
pub open spec fn executar_todos(reg: Registro, passos: Seq<PassoModelo>) -> Registro
    decreases passos.len(),
{
    if passos.len() == 0 {
        reg
    } else {
        executar(executar_todos(reg, passos.drop_last()), passos.last().operacao)
    }
}

/// Opening `chave` succeeds: it, or a key below it, was created.
pub open spec fn chave_existe(reg: Registro, chave: Seq<char>) -> bool {
    exists|c: Seq<char>| reg.chaves.contains(c) && #[trigger] na_arvore(c, chave)
}

/// Reading the string value `nome` of `chave`.
pub open spec fn ler_texto(reg: Registro, chave: Seq<char>, nome: Seq<char>) -> Option<Seq<char>> {
    if reg.valores.contains_key((chave, nome)) {
        match reg.valores[(chave, nome)] {
            ValorModelo::Texto(t) => Some(t),
            ValorModelo::Numero(_) => None,
        }
    } else {
        None
    }
}

/// Reading the number value `nome` of `chave`.
pub open spec fn ler_numero(reg: Registro, chave: Seq<char>, nome: Seq<char>) -> Option<u32> {
    if reg.valores.contains_key((chave, nome)) {
        match reg.valores[(chave, nome)] {
            ValorModelo::Numero(n) => Some(n),
            ValorModelo::Texto(_) => None,
        }
    } else {
        None
    }
}

} // verus!
