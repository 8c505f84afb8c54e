use usados::comando::{comando, Comando};
use usados::fila::Modo;

#[test]
fn linha_de_comando() {
    assert_eq!(comando(None), Comando::Configurar);
    assert_eq!(comando(Some("--config")), Comando::Configurar);
    assert_eq!(comando(Some("--CONFIG")), Comando::Configurar);
    assert_eq!(comando(Some("--desinstalar")), Comando::Desinstalar);
    assert_eq!(comando(Some("--mover")), Comando::Mover { modo: Modo::Padrao });
    assert_eq!(comando(Some("--Mover-Para")), Comando::Mover { modo: Modo::Escolher });
    assert_eq!(comando(Some(r"C:\video.mp4")), Comando::Arrastados);
    assert_eq!(comando(Some("--mover ")), Comando::Arrastados);
    assert_eq!(comando(Some("")), Comando::Arrastados);
}
