//! Work queue: gathers many selected files into a single batch.
//!
//! When 50 files are selected and "Marcar como usado" is clicked, Windows
//! starts the program 50 times (once per file). Each copy only writes its
//! file into a queue folder and tries to become the "worker" (a mutex lets
//! only one succeed). The worker waits until new entries stop arriving and
//! moves everything at once. This module holds the queue's file format and
//! the worker's decisions; the program does the waiting and the file work.

use vstd::prelude::*;
use vstd::string::StrSliceExecFns;

use crate::texto::{
    caracteres, copiar_trecho, decimal, decimal_com_zeros, escrever_com_zeros, escrever_decimal,
    ler_sem_sinal, numero_sem_sinal, eh_digito, lema_ler_com_zeros, lema_ordem_com_zeros, potencia10, antes_na_ordem,
};
use crate::util::{bytes_le, bytes_para_caminho, caminho_para_bytes, juntado, juntar, unidades_le};

verus! {

/// Time without news in the queue after which Windows is taken to have
/// finished starting every copy, in milliseconds.
pub const SILENCIO_MS: u64 = 450;

/// Even if entries keep arriving, moving starts after this long (nanoseconds).
pub const ESPERA_MAXIMA_NANOS: u128 = 8_000_000_000;

/// Entries forgotten in the queue (say, the computer was switched off
/// midway) are dropped after 12 hours (nanoseconds). It is long on purpose:
/// entries made while a slow external disk is still copying wait their turn
/// and must not be thrown away.
pub const VALIDADE_NANOS: u128 = 43_200_000_000_000;

/// What to do with the items of an entry.
#[derive(Clone, Copy, PartialEq, Eq, Debug, Structural)]
pub enum Modo {
    /// Move to the configured folder of used items
    Padrao,
    /// Ask for the folder (once for the whole batch)
    Escolher,
}

/// One queued item: its mode and its path, as UTF-16 units.
#[derive(Debug, PartialEq, Eq)]
pub struct Pedido {
    pub modo: Modo,
    pub caminho: Vec<u16>,
}

/// `...\Usados\fila`, given the data folder.
pub fn pasta_fila(pasta_dados: &str) -> (r: String)
    ensures
        r@ == juntado(pasta_dados@, "fila"@),
{
    juntar(pasta_dados, "fila")
}

/// The name of an entry: the time it was made (nanoseconds, 24 digits, so
/// that sorting names sorts by arrival), the process id and the item's index.
pub open spec fn nome_do_pedido(nanos: u128, pid: u32, i: usize) -> Seq<char> {
    decimal_com_zeros(nanos as nat, 24) + seq!['-'] + decimal(pid as nat) + seq!['-'] + decimal(
        i as nat,
    )
}

/// Builds the name of an entry (without extension).
pub fn nome_pedido(nanos: u128, pid: u32, i: usize) -> (r: String)
    ensures
        r@ == nome_do_pedido(nanos, pid, i),
{
    let mut r = String::new();
    escrever_com_zeros(&mut r, nanos, 24);
    r.push('-');
    escrever_decimal(&mut r, pid as u128);
    r.push('-');
    escrever_decimal(&mut r, i as u128);
    r
}

/// The byte that marks the mode in an entry.
pub open spec fn byte_do_modo(modo: Modo) -> u8 {
    match modo {
        Modo::Padrao => 80,  // 'P'
        Modo::Escolher => 69,  // 'E'
    }
}

/// The contents of an entry: the mode byte, then the path (see `caminho_para_bytes`).
pub open spec fn conteudo_do_pedido(modo: Modo, caminho: Seq<u16>) -> Seq<u8> {
    seq![byte_do_modo(modo)] + bytes_le(caminho)
}

/// Builds the contents of an entry.
pub fn conteudo_pedido(modo: Modo, caminho: &[u16]) -> (r: Vec<u8>)
    ensures
        r@ == conteudo_do_pedido(modo, caminho@),
{
    let mut r: Vec<u8> = Vec::new();
    r.push(
        match modo {
            Modo::Padrao => 80,
            Modo::Escolher => 69,
        },
    );
    let mut resto = caminho_para_bytes(caminho);
    r.append(&mut resto);
    r
}

/// The mode a byte stands for.
pub open spec fn modo_do_byte(b: u8) -> Option<Modo> {
    if b == 80 {
        Some(Modo::Padrao)
    } else if b == 69 {
        Some(Modo::Escolher)
    } else {
        None
    }
}

/// The text before the first `-` (all of it when there is none).
pub open spec fn primeiro_campo(s: Seq<char>) -> Seq<char>
    decreases s.len(),
{
    if s.len() == 0 {
        s
    } else if s[0] == '-' {
        Seq::empty()
    } else {
        seq![s[0]] + primeiro_campo(s.skip(1))
    }
}

/// `a - b`, or 0 when `b` is larger.
pub open spec fn diferenca(a: u128, b: u128) -> nat {
    if a >= b {
        (a - b) as nat
    } else {
        0
    }
}

/// An entry as read back from its file: `nome` is the file name without
/// extension (when it is valid text), `dados` the contents (when they could
/// be read), `agora` the current time in nanoseconds. Unreadable or damaged
/// entries, and entries older than 12 hours, give `None`.
pub open spec fn pedido_lido(
    nome: Option<Seq<char>>,
    dados: Option<Seq<u8>>,
    agora: u128,
) -> Option<(Modo, Seq<u16>)> {
    match (nome, dados) {
        (Some(n), Some(d)) => if d.len() >= 1 && modo_do_byte(d[0]) is Some {
            match numero_sem_sinal(primeiro_campo(n), u128::MAX as nat) {
                Some(criado) => if diferenca(agora, criado as u128) > VALIDADE_NANOS {
                    None
                } else {
                    Some((modo_do_byte(d[0])->0, unidades_le(d.skip(1))))
                },
                None => None,
            }
        } else {
            None
        },
        _ => None,
    }
}

fn campo_inicial(s: &Vec<char>) -> (r: Vec<char>)
    ensures
        r@ == primeiro_campo(s@),
{
    let mut i: usize = 0;
    while i < s.len() && s[i] != '-'
        invariant
            i <= s.len(),
            forall|j: int| 0 <= j < i ==> s@[j] != '-',
        decreases s.len() - i,
    {
        i = i + 1;
    }
    proof {
        lema_primeiro_campo(s@, i as int);
    }
    copiar_trecho(s, 0, i)
}

proof fn lema_primeiro_campo(s: Seq<char>, i: int)
    requires
        0 <= i <= s.len(),
        forall|j: int| 0 <= j < i ==> s[j] != '-',
        i == s.len() || s[i] == '-',
    ensures
        primeiro_campo(s) == s.subrange(0, i),
    decreases s.len(),
{
    if s.len() > 0 {
        if i == 0 {
            assert(s.subrange(0, 0) =~= Seq::<char>::empty());
        } else {
            lema_primeiro_campo(s.skip(1), i - 1);
            assert(seq![s[0]] + s.skip(1).subrange(0, i - 1) =~= s.subrange(0, i));
        }
    } else {
        assert(s.subrange(0, 0) =~= s);
    }
}

/// Reads an entry back (see `pedido_lido`).
pub fn ler_pedido(nome: Option<&str>, dados: Option<&[u8]>, agora: u128) -> (r: Option<Pedido>)
    ensures
        match pedido_lido(
            match nome {
                Some(n) => Some(n@),
                None => None,
            },
            match dados {
                Some(d) => Some(d@),
                None => None,
            },
            agora,
        ) {
            Some((modo, caminho)) => r matches Some(p) && p.modo == modo && p.caminho@ == caminho,
            None => r is None,
        },
{
    let (n, d) = match (nome, dados) {
        (Some(n), Some(d)) => (n, d),
        _ => return None,
    };
    if d.len() == 0 {
        return None;
    }
    let modo = if d[0] == 80 {
        Modo::Padrao
    } else if d[0] == 69 {
        Modo::Escolher
    } else {
        return None;
    };
    let campo = campo_inicial(&caracteres(n));
    let criado = match ler_sem_sinal(&campo, u128::MAX) {
        Some(c) => c,
        None => return None,
    };
    let idade: u128 = if agora >= criado { agora - criado } else { 0 };
    if idade > VALIDADE_NANOS {
        return None;
    }
    let mut resto: Vec<u8> = Vec::new();
    let mut i: usize = 1;
    while i < d.len()
        invariant
            1 <= i <= d.len(),
            resto@ == d@.subrange(1, i as int),
        decreases d.len() - i,
    {
        resto.push(d[i]);
        i = i + 1;
    }
    assert(resto@ =~= d@.skip(1));
    Some(Pedido { modo, caminho: bytes_para_caminho(resto.as_slice()) })
}

/// An entry written with `nome_pedido` and `conteudo_pedido` and read back
/// with `ler_pedido` within 12 hours gives back the same mode and path.
pub proof fn lei_pedido_ida_e_volta(
    modo: Modo,
    caminho: Seq<u16>,
    nanos: u128,
    pid: u32,
    i: usize,
    agora: u128,
)
    requires
        diferenca(agora, nanos) <= VALIDADE_NANOS,
    ensures
        pedido_lido(
            Some(nome_do_pedido(nanos, pid, i)),
            Some(conteudo_do_pedido(modo, caminho)),
            agora,
        ) == Some((modo, caminho)),
{
    let z = decimal_com_zeros(nanos as nat, 24);
    lema_ler_com_zeros(nanos as nat, 24, u128::MAX as nat);
    let nome = nome_do_pedido(nanos, pid, i);
    let resto = decimal(pid as nat) + seq!['-'] + decimal(i as nat);
    assert(nome =~= z + (seq!['-'] + resto));
    assert forall|j: int| 0 <= j < z.len() implies z[j] != '-' by {
        assert(eh_digito(z[j]));
    }
    lema_campo_antes_do_traco(z, seq!['-'] + resto);
    let d = conteudo_do_pedido(modo, caminho);
    assert(d.skip(1) =~= bytes_le(caminho));
    crate::util::lei_bytes_ida_e_volta(caminho);
}

proof fn lema_campo_antes_do_traco(a: Seq<char>, b: Seq<char>)
    requires
        forall|j: int| 0 <= j < a.len() ==> a[j] != '-',
        b.len() > 0,
        b[0] == '-',
    ensures
        primeiro_campo(a + b) == a,
    decreases a.len(),
{
    if a.len() == 0 {
        assert(a + b =~= b);
    } else {
        lema_campo_antes_do_traco(a.skip(1), b);
        assert((a + b).skip(1) =~= a.skip(1) + b);
        assert(seq![a[0]] + a.skip(1) =~= a);
    }
}

/// Entry names sort in arrival order: an entry made earlier (in
/// nanoseconds, below 10^24) has a name that sorts first, whatever the
/// process and index.
pub proof fn lei_nomes_na_ordem_de_chegada(
    nanos1: u128,
    nanos2: u128,
    pid1: u32,
    pid2: u32,
    i1: usize,
    i2: usize,
)
    requires
        nanos1 < nanos2,
        nanos2 < potencia10(24),
    ensures
        antes_na_ordem(nome_do_pedido(nanos1, pid1, i1), nome_do_pedido(nanos2, pid2, i2)),
{
    lema_ordem_com_zeros(nanos1 as nat, nanos2 as nat, 24);
    let za = decimal_com_zeros(nanos1 as nat, 24);
    let zb = decimal_com_zeros(nanos2 as nat, 24);
    let a = nome_do_pedido(nanos1, pid1, i1);
    let b = nome_do_pedido(nanos2, pid2, i2);
    let k = choose|k: int|
        0 <= k < za.len() && k < zb.len() && #[trigger] za.take(k) == zb.take(k) && (za[k] as u32) < (
        zb[k] as u32);
    assert(a.take(k) =~= za.take(k));
    assert(b.take(k) =~= zb.take(k));
    assert(a[k] == za[k] && b[k] == zb[k]);
}

/// Whether the worker stops waiting for more entries: their count did not
/// change over the last pause, or it has waited too long already.
pub fn fim_da_coleta(quantidade_antes: usize, quantidade_agora: usize, decorrido_nanos: u128) -> (r:
    bool)
    ensures
        r == (quantidade_agora == quantidade_antes || decorrido_nanos > ESPERA_MAXIMA_NANOS),
{
    quantidade_agora == quantidade_antes || decorrido_nanos > ESPERA_MAXIMA_NANOS
}

/// After collecting a batch: the number of rounds in a row that found the
/// queue empty.
pub fn rodadas_depois_da_coleta(rodadas_vazias: u32, lote_vazio: bool) -> (r: u32)
    ensures
        r == (if !lote_vazio {
            0
        } else if rodadas_vazias < u32::MAX {
            (rodadas_vazias + 1) as u32
        } else {
            u32::MAX
        }),
{
    if !lote_vazio {
        0
    } else {
        rodadas_vazias.saturating_add(1)
    }
}

/// After releasing the mutex, the worker leaves when the queue is empty, or
/// after three empty rounds (a guard against spinning for nothing);
/// otherwise an entry arrived just as it let go, and it tries again.
pub fn encerrar_trabalho(fila_vazia: bool, rodadas_vazias: u32) -> (r: bool)
    ensures
        r == (fila_vazia || rodadas_vazias >= 3),
{
    fila_vazia || rodadas_vazias >= 3
}

} // verus!
