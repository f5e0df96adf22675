use pbhealth::{Collection, Config, Export, Technician, Ui};

#[test]
fn config_defaults() {
    let c = Config::default();
    assert_eq!(c.technician.company, "PB Informática");
    assert_eq!(c.technician.name, "");
    assert_eq!(c.ui.theme, "auto");
    assert_eq!(c.ui.auto_refresh_seconds, 0);
    assert_eq!(c.ui.language, "pt-BR");
    assert!(c.collection.parallel_collectors);
    assert_eq!(c.collection.timeout_seconds, 10);
    assert!(c.collection.include_unavailable);
    assert!(c.export.pdf_include_json_appendix);
    assert!(!c.export.pdf_company_logo);
}

#[test]
fn section_defaults() {
    assert_eq!(Technician::default().cnpj, "");
    assert_eq!(Ui::default().language, "pt-BR");
    assert_eq!(Collection::default().timeout_seconds, 10);
    assert!(!Export::default().pdf_company_logo);
}
