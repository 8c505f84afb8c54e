//! The command line.
//!
//!   Usados.exe                      → settings / installation screen
//!   Usados.exe --config             → the same ("Configurações..." menu entry)
//!   Usados.exe --mover "file"       → moves to the configured folder of used items
//!   Usados.exe --mover-para "file"  → asks for the folder and moves
//!   Usados.exe --desinstalar        → removes everything (used by "Installed apps")
//!   Usados.exe file1 file2 ...      → same as --mover (files dropped on the .exe)

use vstd::prelude::*;

use crate::fila::Modo;
use crate::texto::{caracteres, iguais, minuscula_ascii, minusculas_ascii};

verus! {

/// What the program was asked to do.
#[derive(Clone, Copy, PartialEq, Eq, Debug, Structural)]
pub enum Comando {
    /// Show the settings screen.
    Configurar,
    /// Uninstall (after asking).
    Desinstalar,
    /// Queue the paths that follow the first argument, in this mode.
    Mover { modo: Modo },
    /// Every argument is a path: move them when they all exist, otherwise
    /// show the settings screen.
    Arrastados,
}

/// The command given by the first argument (compared without regard to the
/// case of ASCII letters); `None` when there is no argument or it is not
/// valid text.
pub open spec fn comando_de(primeiro: Option<Seq<char>>) -> Comando {
    match primeiro {
        None => Comando::Configurar,
        Some(a) => {
            let m = a.map_values(|c: char| minuscula_ascii(c));
            if m == "--config"@ {
                Comando::Configurar
            } else if m == "--desinstalar"@ {
                Comando::Desinstalar
            } else if m == "--mover"@ {
                Comando::Mover { modo: Modo::Padrao }
            } else if m == "--mover-para"@ {
                Comando::Mover { modo: Modo::Escolher }
            } else {
                Comando::Arrastados
            }
        },
    }
}

/// Reads the first argument of the command line.
pub fn comando(primeiro: Option<&str>) -> (r: Comando)
    ensures
        r == comando_de(
            match primeiro {
                Some(a) => Some(a@),
                None => None,
            },
        ),
{
    match primeiro {
        None => Comando::Configurar,
        Some(a) => {
            let m = minusculas_ascii(&caracteres(a));
            if iguais(&m, &caracteres("--config")) {
                Comando::Configurar
            } else if iguais(&m, &caracteres("--desinstalar")) {
                Comando::Desinstalar
            } else if iguais(&m, &caracteres("--mover")) {
                Comando::Mover { modo: Modo::Padrao }
            } else if iguais(&m, &caracteres("--mover-para")) {
                Comando::Mover { modo: Modo::Escolher }
            } else {
                Comando::Arrastados
            }
        },
    }
}

} // verus!
