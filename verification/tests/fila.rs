use usados::fila::{
    conteudo_pedido, encerrar_trabalho, fim_da_coleta, ler_pedido, nome_pedido, pasta_fila,
    rodadas_depois_da_coleta, Modo, Pedido, VALIDADE_NANOS,
};

#[test]
fn nome_do_pedido_tem_24_digitos() {
    assert_eq!(nome_pedido(1_700_000_000_123_456_789, 4242, 3), "000001700000000123456789-4242-3");
    assert_eq!(nome_pedido(0, 0, 0), "000000000000000000000000-0-0");
    // larger than 24 digits: printed in full, as `{:024}` does
    assert_eq!(nome_pedido(u128::MAX, 1, 2), format!("{}-1-2", u128::MAX));
}

#[test]
fn nomes_ordenam_por_chegada() {
    let a = nome_pedido(999_999_999, 7, 0);
    let b = nome_pedido(1_000_000_000, 1, 0);
    assert!(a < b);
}

#[test]
fn pedido_ida_e_volta() {
    let caminho: Vec<u16> = r"D:\Vídeos\clip.mp4".encode_utf16().collect();
    let nanos = 1_700_000_000_000_000_000u128;
    for modo in [Modo::Padrao, Modo::Escolher] {
        let nome = nome_pedido(nanos, 10, 0);
        let dados = conteudo_pedido(modo, &caminho);
        let lido = ler_pedido(Some(nome.as_str()), Some(dados.as_slice()), nanos + 1_000);
        assert_eq!(lido, Some(Pedido { modo, caminho: caminho.clone() }));
    }
}

#[test]
fn conteudo_comeca_pelo_modo() {
    assert_eq!(conteudo_pedido(Modo::Padrao, &[0x41]), vec![b'P', 0x41, 0]);
    assert_eq!(conteudo_pedido(Modo::Escolher, &[0x0101]), vec![b'E', 1, 1]);
}

#[test]
fn pedidos_estragados_ou_velhos_sao_descartados() {
    let nanos = 1_000_000u128;
    let nome = nome_pedido(nanos, 1, 0);
    let bom = conteudo_pedido(Modo::Padrao, &[0x41]);
    assert_eq!(ler_pedido(None, Some(bom.as_slice()), nanos), None);
    assert_eq!(ler_pedido(Some(nome.as_str()), None, nanos), None);
    assert_eq!(ler_pedido(Some(nome.as_str()), Some(&[]), nanos), None);
    assert_eq!(ler_pedido(Some(nome.as_str()), Some(&[b'X', 0x41, 0]), nanos), None);
    assert_eq!(ler_pedido(Some("abc-1-0"), Some(bom.as_slice()), nanos), None);
    // exactly 12 hours old is still fine, one nanosecond more is not
    assert!(ler_pedido(Some(nome.as_str()), Some(bom.as_slice()), nanos + VALIDADE_NANOS).is_some());
    assert_eq!(ler_pedido(Some(nome.as_str()), Some(bom.as_slice()), nanos + VALIDADE_NANOS + 1), None);
    // made "in the future" (clock changed): kept
    assert!(ler_pedido(Some(nome.as_str()), Some(bom.as_slice()), 0).is_some());
    // a name without a dash is read whole
    assert!(ler_pedido(Some("1000000"), Some(bom.as_slice()), nanos).is_some());
}

#[test]
fn pasta_da_fila() {
    assert_eq!(pasta_fila(r"C:\Users\Ana\AppData\Local\Usados"), r"C:\Users\Ana\AppData\Local\Usados\fila");
}

#[test]
fn coleta_termina_quando_para_de_chegar() {
    assert!(fim_da_coleta(5, 5, 0));
    assert!(!fim_da_coleta(5, 7, 1_000_000_000));
    assert!(fim_da_coleta(5, 7, 8_000_000_001));
    assert!(!fim_da_coleta(5, 7, 8_000_000_000));
}

#[test]
fn trabalhadora_desiste_depois_de_tres_rodadas_vazias() {
    assert_eq!(rodadas_depois_da_coleta(2, false), 0);
    assert_eq!(rodadas_depois_da_coleta(2, true), 3);
    assert_eq!(rodadas_depois_da_coleta(u32::MAX, true), u32::MAX);
    assert!(encerrar_trabalho(true, 0));
    assert!(!encerrar_trabalho(false, 2));
    assert!(encerrar_trabalho(false, 3));
}
