use usados::config::{Config, Organizacao};
use usados::ui::{
    mensagem_instalacao, montar_tela, responder_tela, resumo_problemas, texto_organizacao, AcaoTela,
    ID_DESINSTALAR, ID_PASTA, ID_RADIO_BASE, ID_SALVAR,
};

fn p(a: &str, b: &str) -> (String, String) {
    (a.to_string(), b.to_string())
}

#[test]
fn resumo_com_poucos_problemas() {
    let r = resumo_problemas(1, &[p(r"C:\a\x.mp4", "já está na pasta de destino"), p(r"E:\", "não dá para mover um disco inteiro")]);
    assert_eq!(r.instrucao, "1 item movido, mas alguns ficaram de fora");
    assert_eq!(
        r.conteudo,
        "• x.mp4 — já está na pasta de destino\n• E:\\ — não dá para mover um disco inteiro"
    );
    assert_eq!(resumo_problemas(0, &[]).instrucao, "Nenhum item foi movido");
    assert_eq!(resumo_problemas(0, &[]).conteudo, "");
}

#[test]
fn resumo_com_muitos_problemas() {
    let lista: Vec<(String, String)> = (0..15).map(|i| p(&format!(r"C:\{i}.txt"), "em uso")).collect();
    let r = resumo_problemas(7, &lista);
    assert_eq!(r.instrucao, "7 itens movidos, mas alguns ficaram de fora");
    let linhas: Vec<&str> = r.conteudo.lines().collect();
    assert_eq!(linhas.len(), 13);
    assert_eq!(linhas[0], "• 0.txt — em uso");
    assert_eq!(linhas[11], "• 11.txt — em uso");
    assert_eq!(linhas[12], "• … e mais 3");
}

#[test]
fn tela_de_configuracoes() {
    let cfg = Config {
        destino: None,
        organizacao: Organizacao::PorDia,
        registrar: true,
        ultima_outra_pasta: None,
    };
    let t = montar_tela(&cfg, false, true, false);
    assert_eq!(t.instrucao, "Bem-vindo! Vamos configurar");
    assert!(t.conteudo.starts_with("Este programa adiciona"));
    assert!(t.conteudo.ends_with("Pasta de destino:\n(nenhuma escolhida ainda)\n\nComo organizar os arquivos lá dentro:"));
    assert_eq!(t.botoes.iter().map(|b| b.id).collect::<Vec<_>>(), vec![ID_PASTA, ID_SALVAR]);
    assert!(t.botoes[1].texto.starts_with("Instalar"));
    assert_eq!(t.radios.len(), 4);
    assert_eq!(t.radios[3].id, ID_RADIO_BASE + 3);
    assert_eq!(t.radios[3].texto, texto_organizacao(Organizacao::PorOrigem));
    assert_eq!(t.radio_padrao, ID_RADIO_BASE + 2);
    assert_eq!(t.caixa, Some(false));
    assert_eq!(t.botao_padrao, ID_PASTA);
    assert!(t.rodape.starts_with("No Windows 11"));

    let instalado = Config { destino: Some(r"D:\Usados".to_string()), ..cfg };
    let t = montar_tela(&instalado, true, false, true);
    assert_eq!(t.instrucao, "Marcar como usado — Configurações");
    assert_eq!(t.conteudo, "Pasta de destino:\nD:\\Usados\n\nComo organizar os arquivos lá dentro:");
    assert_eq!(t.botoes.iter().map(|b| b.id).collect::<Vec<_>>(), vec![ID_PASTA, ID_SALVAR, ID_DESINSTALAR]);
    assert_eq!(t.caixa, None);
    assert_eq!(t.rodape, "");
    assert_eq!(t.botao_padrao, ID_SALVAR);
}

#[test]
fn respostas_da_tela() {
    let r = responder_tela(ID_SALVAR, ID_RADIO_BASE + 1, true, true, false);
    assert_eq!(r.organizacao, Organizacao::PorMes);
    assert!(r.classico);
    assert_eq!(r.acao, AcaoTela::SalvarEInstalar);
    let r = responder_tela(ID_PASTA, 0, false, false, true);
    assert_eq!(r.organizacao, Organizacao::Direto);
    assert!(r.classico);
    assert_eq!(r.acao, AcaoTela::EscolherPasta);
    assert_eq!(responder_tela(ID_DESINSTALAR, ID_RADIO_BASE, false, false, false).acao, AcaoTela::Desinstalar);
    assert_eq!(responder_tela(2, ID_RADIO_BASE, false, false, false).acao, AcaoTela::Fechar);
}

#[test]
fn mensagem_depois_de_instalar() {
    let m = mensagem_instalacao(true, false, false, r"D:\Usados");
    assert_eq!(m.instrucao, "Pronto, instalado!");
    assert!(m.conteudo.starts_with("Clique com o botão direito em qualquer arquivo ou pasta → “Mostrar mais opções”"));
    assert!(m.conteudo.contains("Eles vão para:\nD:\\Usados\n\nO programa foi instalado"));
    let m = mensagem_instalacao(true, true, true, r"D:\Usados");
    assert_eq!(m.instrucao, "Configurações salvas");
    assert!(m.conteudo.ends_with("Eles vão para:\nD:\\Usados"));
    assert!(m.conteudo.starts_with("Clique com o botão direito em qualquer arquivo ou pasta → “Marcar como usado”."));
}
