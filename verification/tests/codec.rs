use wead::codec::desescapar_csv;
use wead::codec::escapar_csv;
use wead::registro::formatar_telefone;
use wead::registro::validar_email;
use wead::texto::analisar_i64;
use wead::texto::aparar;
use wead::texto::dividir;
use wead::texto::inteiro_para_texto;

#[test]
fn escapar_campo_sem_delimitadores_fica_igual() {
    assert_eq!(escapar_csv("Ana"), "Ana");
    assert_eq!(escapar_csv(""), "");
    assert_eq!(escapar_csv("ana@x.com"), "ana@x.com");
}

#[test]
fn escapar_campo_com_virgula_ganha_aspas() {
    assert_eq!(escapar_csv("a,b"), "\"a,b\"");
    assert_eq!(escapar_csv("diz \"oi\""), "\"diz \"\"oi\"\"\"");
    assert_eq!(escapar_csv("linha\nnova"), "\"linha\nnova\"");
}

#[test]
fn desescapar_desfaz_o_escape() {
    assert_eq!(desescapar_csv("\"a,b\""), "a,b");
    assert_eq!(desescapar_csv("\"diz \"\"oi\"\"\""), "diz \"oi\"");
    assert_eq!(desescapar_csv("simples"), "simples");
}

#[test]
fn desescapar_apara_espacos() {
    assert_eq!(desescapar_csv("  com espacos  "), "com espacos");
    assert_eq!(desescapar_csv(" \"a,b\" "), "a,b");
}

#[test]
fn ida_e_volta_para_campos_sem_espacos_nas_pontas() {
    for campo in ["Ana", "a,b", "diz \"oi\"", "x\ny", "", "a\"\"b", "\"", "\"x\""] {
        assert_eq!(desescapar_csv(&escapar_csv(campo)), campo);
    }
}

#[test]
fn limite_conhecido_espacos_nas_pontas_se_perdem() {
    // the documented limitation: incidental edge white space is trimmed away
    assert_eq!(desescapar_csv(&escapar_csv(" Ana ")), "Ana");
}

#[test]
fn formatar_telefone_mantem_so_digitos() {
    assert_eq!(formatar_telefone("(11) 98765-4321".to_string()), "11987654321");
    assert_eq!(formatar_telefone("abc".to_string()), "");
    assert_eq!(formatar_telefone("123".to_string()), "123");
}

#[test]
fn validar_email_exige_arroba_ponto_e_tamanho() {
    assert!(validar_email("ana@x.com".to_string()));
    assert!(!validar_email("ana.x.com".to_string()));
    assert!(!validar_email("ana@xcom".to_string()));
    assert!(!validar_email("a@b.c".to_string()));
}

#[test]
fn inteiro_e_texto_vao_e_voltam() {
    assert_eq!(inteiro_para_texto(0), "0");
    assert_eq!(inteiro_para_texto(42), "42");
    assert_eq!(inteiro_para_texto(-7), "-7");
    assert_eq!(inteiro_para_texto(i64::MAX), "9223372036854775807");
    assert_eq!(inteiro_para_texto(i64::MIN), "-9223372036854775808");
    assert_eq!(analisar_i64("42"), Some(42));
    assert_eq!(analisar_i64("+42"), Some(42));
    assert_eq!(analisar_i64("-9223372036854775808"), Some(i64::MIN));
    assert_eq!(analisar_i64("9223372036854775808"), None);
    assert_eq!(analisar_i64(""), None);
    assert_eq!(analisar_i64("12x"), None);
    assert_eq!(analisar_i64(" 12"), None);
}

#[test]
fn dividir_e_aparar_funcionam_como_no_formato() {
    let pedacos = dividir("1,a,b,c", ',');
    assert_eq!(pedacos, vec!["1", "a", "b", "c"]);
    let pedacos = dividir(",,", ',');
    assert_eq!(pedacos, vec!["", "", ""]);
    assert_eq!(aparar("  x  "), "x");
    assert_eq!(aparar("   "), "");
}
