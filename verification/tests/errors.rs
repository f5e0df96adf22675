use pbhealth::AppError;

#[test]
fn error_messages() {
    assert_eq!(AppError::collect("cpu").message(), "Coleta falhou: cpu");
    assert_eq!(AppError::unavailable("temp").message(), "Métrica indisponível: temp");
    assert_eq!(
        AppError::external("nvidia-smi", "not found").message(),
        "Comando externo falhou (nvidia-smi): not found"
    );
    assert_eq!(AppError::other("boom").message(), "boom");
    assert_eq!(AppError::Config(String::from("x")).message(), "Configuração inválida: x");
    assert_eq!(AppError::Io(String::from("denied")).message(), "IO: denied");
    assert_eq!(AppError::Pdf(String::from("p")).message(), "PDF: p");
    assert_eq!(AppError::Serde(String::from("s")).message(), "Serialização: s");
    assert_eq!(AppError::Database(String::from("d")).message(), "Banco de dados: d");
    assert_eq!(AppError::Pool(String::from("q")).message(), "Pool do banco: q");
    let s: String = AppError::collect("a").into();
    assert_eq!(s, "Coleta falhou: a");
}
