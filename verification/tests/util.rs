use usados::texto::{pontos_de_utf16, texto_de_utf16};
use usados::ordem::{chave_ordem, vem_antes};
use usados::util::{
    bytes_para_caminho, caminho_para_bytes, chave_caminho, chave_de_minusculas_exec, csv, encurtar,
    esta_dentro, juntar, mesmo_caminho, nome_arquivo, nome_livre, normalizar, pai, possui_pai,
    separar_extensao, Agora, Reservados,
};

#[test]
fn extensao() {
    assert_eq!(separar_extensao("clip.mp4", false), ("clip", ".mp4"));
    assert_eq!(separar_extensao("a.b.mov", false), ("a.b", ".mov"));
    assert_eq!(separar_extensao(".hidden", false), (".hidden", ""));
    assert_eq!(separar_extensao("Projeto.v2", true), ("Projeto.v2", ""));
}

#[test]
fn dentro() {
    assert!(esta_dentro(r"D:\Usados\x.mp4", r"d:\usados"));
    assert!(esta_dentro(r"D:\Usados", r"D:\Usados\"));
    assert!(!esta_dentro(r"D:\Usados2\x.mp4", r"D:\Usados"));
}

#[test]
fn nomes_repetidos() {
    // The folder holds "clip.mp4" and the folder "Projeto".
    let pasta = r"C:\Temp\usados-teste";
    let existe = |c: &str| c == "clip.mp4" || c == "Projeto";
    let mut r = Reservados::new();
    assert_eq!(nome_livre(pasta, "clip.mp4", false, &mut r, existe), Some("clip (2).mp4".to_string()));
    assert_eq!(nome_livre(pasta, "clip.mp4", false, &mut r, existe), Some("clip (3).mp4".to_string()));
    assert_eq!(nome_livre(pasta, "novo.mov", false, &mut r, existe), Some("novo.mov".to_string()));
    assert_eq!(nome_livre(pasta, "novo.mov", false, &mut r, existe), Some("novo (2).mov".to_string()));
    assert_eq!(nome_livre(pasta, "Projeto", true, &mut r, existe), Some("Projeto (2)".to_string()));
}

#[test]
fn encurta() {
    assert_eq!(encurtar("abc", 10), "abc");
    assert_eq!(encurtar("0123456789ABCDEF", 9).chars().count(), 9);
}

#[test]
fn encurta_mostra_inicio_e_fim() {
    assert_eq!(encurtar("0123456789ABCDEF", 9), "0123…CDEF");
    assert_eq!(encurtar("0123456789", 10), "0123456789");
    assert_eq!(encurtar("0123456789", 4), "0…9");
    assert_eq!(encurtar("0123456789", 0), "…");
}

#[test]
fn chave_normaliza() {
    assert_eq!(chave_caminho(r"D:/Usados/Vídeos"), r"d:\usados\vídeos\");
    assert_eq!(chave_caminho(r"\\?\D:\Usados\"), r"d:\usados\");
    assert_eq!(chave_caminho(r"\\?\UNC\Servidor\Dados"), r"\\servidor\dados\");
    assert_eq!(chave_caminho(""), r"\");
}

#[test]
fn mesmo_caminho_ignora_maiusculas_e_barras() {
    assert!(mesmo_caminho(r"C:\Users\Ana\Usados.exe", r"c:/users/ana/usados.exe"));
    assert!(!mesmo_caminho(r"C:\Users\Ana", r"C:\Users\Ana2"));
}

#[test]
fn dentro_de_si_mesmo() {
    assert!(esta_dentro(r"E:\Projetos", r"E:\Projetos"));
    assert!(esta_dentro(r"E:\a\b\c", r"E:\a"));
    assert!(!esta_dentro(r"E:\a", r"E:\a\b"));
}

#[test]
fn datas_com_zeros() {
    let a = Agora { ano: 2026, mes: 9, dia: 4, hora: 7, minuto: 3, segundo: 0 };
    assert_eq!(a.ano_mes(), "2026-09");
    assert_eq!(a.ano_mes_dia(), "2026-09-04");
    assert_eq!(a.legivel(), "04/09/2026 07:03:00");
    let b = Agora { ano: 12, mes: 12, dia: 31, hora: 23, minuto: 59, segundo: 59 };
    assert_eq!(b.ano_mes_dia(), "0012-12-31");
    assert_eq!(b.legivel(), "31/12/0012 23:59:59");
}

#[test]
fn csv_campos() {
    assert_eq!(csv("simples"), "simples");
    assert_eq!(csv("a;b"), "\"a;b\"");
    assert_eq!(csv("diz \"oi\""), "\"diz \"\"oi\"\"\"");
    assert_eq!(csv("linha\nnova"), "\"linha\nnova\"");
    assert_eq!(csv(""), "");
}

#[test]
fn bytes_ida_e_volta() {
    let u: Vec<u16> = "C:\\Vídeos\\é 😀".encode_utf16().collect();
    let b = caminho_para_bytes(&u);
    assert_eq!(b.len(), 2 * u.len());
    assert_eq!(&b[0..4], &[b'C', 0, b':', 0]);
    assert_eq!(bytes_para_caminho(&b), u);
    // an odd last byte is ignored; unpaired surrogates survive
    assert_eq!(bytes_para_caminho(&[0x41, 0x00, 0x07]), vec![0x41]);
    assert_eq!(bytes_para_caminho(&caminho_para_bytes(&[0xD800, 0x0041])), vec![0xD800, 0x0041]);
}

#[test]
fn nomes_de_arquivo() {
    assert_eq!(nome_arquivo(r"D:\Pasta\video.mp4"), Some("video.mp4".to_string()));
    assert_eq!(nome_arquivo(r"D:\Pasta\"), Some("Pasta".to_string()));
    assert_eq!(nome_arquivo(r"D:\"), None);
    assert_eq!(nome_arquivo("D:"), None);
    assert_eq!(nome_arquivo(r"\\srv\share"), None);
    assert_eq!(nome_arquivo(r"\\srv\share\x.txt"), Some("x.txt".to_string()));
    assert_eq!(nome_arquivo(r"C:\a\.."), None);
    assert_eq!(pai(r"D:\video.mp4"), r"D:\");
    assert_eq!(pai(r"D:\Pasta\video.mp4"), r"D:\Pasta\");
    // a trailing "." is ignored, as by `Path::file_name`
    assert_eq!(nome_arquivo(r"C:\a\b\."), Some("b".to_string()));
    assert_eq!(pai(r"C:\a\b\."), r"C:\a\");
    assert_eq!(nome_arquivo("D:x"), Some("x".to_string()));
    assert_eq!(pai("D:x"), "D:");
    // prefixes are not names
    assert_eq!(nome_arquivo(r"\\?\UNC\srv\share"), None);
    assert_eq!(nome_arquivo(r"\\?\UNC\srv\share\x"), Some("x".to_string()));
    assert_eq!(nome_arquivo(r"\\?\C:\"), None);
    assert_eq!(nome_arquivo(r"\\?\C:\x"), Some("x".to_string()));
    assert_eq!(nome_arquivo(r"\\.\COM1"), None);
    // in a literal path "." is a component and "/" is no separator
    assert_eq!(nome_arquivo(r"\\?\C:\a\."), None);
    assert_eq!(nome_arquivo(r"\\?\C:\a/b"), Some("a/b".to_string()));
    assert_eq!(pai(r"\\?\C:\a/b"), r"\\?\C:\");
    assert_eq!(pai(r"\\?\C:\a\."), r"\\?\C:\a\");
    assert_eq!(pai(r"D:\a\b\.."), r"D:\a\b\");
    assert!(possui_pai(r"D:\a\b\.."));
    assert!(possui_pai(r"C:\a\b\."));
    assert!(!possui_pai(r"D:\"));
    assert!(!possui_pai(r"\\srv\share"));
    assert!(!possui_pai(""));
}

#[test]
fn chave_em_duas_etapas() {
    assert_eq!(normalizar(r"D:/Usados/Vídeos"), r"D:\Usados\Vídeos");
    assert_eq!(normalizar(r"\\?\UNC\Servidor\Dados"), r"\\Servidor\Dados");
    assert_eq!(normalizar(r"\\?\D:\Usados"), r"D:\Usados");
    assert_eq!(chave_de_minusculas_exec(r"d:\usados"), r"d:\usados\");
    assert_eq!(chave_de_minusculas_exec(r"d:\usados\"), r"d:\usados\");
    assert_eq!(chave_de_minusculas_exec(""), r"\");
}

#[test]
fn ordem_dos_caminhos() {
    let k = |s: &str| chave_ordem(s);
    // component by component, not character by character
    assert!(vem_antes(&k(r"C:\a\b"), &k(r"C:\a-b")));
    assert!(!vem_antes(&k(r"C:\a-b"), &k(r"C:\a\b")));
    // the drive letter ignores case, names do not
    assert_eq!(k(r"c:\x"), k(r"C:\x"));
    assert!(vem_antes(&k(r"C:\X"), &k(r"C:\x")));
    // separators and "." pieces do not count
    assert_eq!(k(r"C:\a\\b\.\"), k("C:/a/b"));
    // network shares come before drives; a prefix before its longer paths
    assert!(vem_antes(&k(r"\\srv\share\z"), &k(r"A:\a")));
    assert!(vem_antes(&k(r"C:\a"), &k(r"C:\a\b")));
    assert!(vem_antes(&k(r"C:\a\..\z"), &k(r"C:\a\b")));
    assert!(!vem_antes(&k(r"C:\a"), &k(r"C:\a")));
}

#[test]
fn juntar_caminhos() {
    assert_eq!(juntar(r"D:\Usados", "x.mp4"), r"D:\Usados\x.mp4");
    assert_eq!(juntar(r"D:\Usados\", "x.mp4"), r"D:\Usados\x.mp4");
    assert_eq!(juntar("D:", "x.mp4"), "D:x.mp4");
    assert_eq!(juntar("", "x.mp4"), "x.mp4");
}

#[test]
fn nome_livre_sem_conflito_devolve_o_proprio_nome() {
    let mut r = Reservados::new();
    assert_eq!(nome_livre(r"D:\U", "a.txt", false, &mut r, |_c: &str| false), Some("a.txt".to_string()));
    // the same name in another folder is free
    assert_eq!(nome_livre(r"D:\V", "a.txt", false, &mut r, |_c: &str| false), Some("a.txt".to_string()));
    // the reservation ignores case, as Windows does
    assert_eq!(nome_livre(r"d:\u", "A.TXT", false, &mut r, |_c: &str| false), Some("A (2).TXT".to_string()));
}

#[test]
fn utf16_com_substituicao() {
    let u = [0x41, 0xD83D, 0xDE00, 0xD800, 0x42, 0xDC00, 0xE9];
    assert_eq!(texto_de_utf16(&u), "A\u{1F600}\u{FFFD}B\u{FFFD}é");
    assert_eq!(texto_de_utf16(&u), String::from_utf16_lossy(&u));
    assert_eq!(texto_de_utf16(&[0xDBFF]), "\u{FFFD}");
    assert_eq!(texto_de_utf16(&[]), "");
}

#[test]
fn pontos_de_codigo_utf16() {
    let u = [0x41, 0xD83D, 0xDE00, 0xD800, 0x42, 0xDC00];
    assert_eq!(pontos_de_utf16(&u), vec![0x41, 0x1F600, 0xD800, 0x42, 0xDC00]);
    assert_eq!(pontos_de_utf16(&[]), Vec::<u32>::new());
}
