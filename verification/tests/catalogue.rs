use stores::catalogue::CatalogueRepoImpl;

#[test]
fn catalogue_uses_the_given_connection() {
    let conn = String::from("postgres://localhost/stores");
    let repo = CatalogueRepoImpl::new(&conn);
    assert_eq!(repo.db_conn, "postgres://localhost/stores");
}
