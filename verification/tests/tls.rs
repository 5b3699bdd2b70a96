use sl_core::tls::{select_private_key, Error, PemItem};
use sl_core::web;

#[test]
fn key_items_are_accepted() {
    let key = vec![1u8, 2, 3];
    assert_eq!(select_private_key(Some(PemItem::RSAKey(key.clone()))), Ok(key.clone()));
    assert_eq!(select_private_key(Some(PemItem::PKCS8Key(key.clone()))), Ok(key.clone()));
    assert_eq!(select_private_key(Some(PemItem::ECKey(key.clone()))), Ok(key));
}

#[test]
fn non_key_items_are_refused() {
    assert_eq!(
        select_private_key(Some(PemItem::X509Certificate(vec![9u8]))),
        Err(Error::PrivateKeyLoadError)
    );
    assert_eq!(
        select_private_key(Some(PemItem::Crl(vec![9u8]))),
        Err(Error::PrivateKeyLoadError)
    );
    assert_eq!(select_private_key(None), Err(Error::PrivateKeyLoadError));
}

#[test]
fn web_error_conversions() {
    let io = std::io::Error::new(std::io::ErrorKind::Other, "boom");
    assert_eq!(web::Error::from(io), web::Error::IOError);
    assert_eq!(web::Error::from(Error::TlsConfigError), web::Error::TlsError);
    assert_eq!(web::Error::from(Error::CertificateLoadError), web::Error::TlsError);
    assert_eq!(web::Error::from(Error::PrivateKeyLoadError), web::Error::TlsError);
}
