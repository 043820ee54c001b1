use caldir_provider_proton::auth::{
    check_server_proof, default_password_mode, srp_client_proof, AuthInfo, LoginError,
    LoginResponse, SrpProof, TwoFactor,
};

fn response(server_proof: &str) -> LoginResponse {
    LoginResponse {
        uid: "uid".into(),
        access_token: "access".into(),
        refresh_token: "refresh".into(),
        server_proof: server_proof.into(),
        password_mode: default_password_mode(),
        two_factor: TwoFactor::none(),
    }
}

#[test]
fn unsupported_srp_versions_are_refused_before_hashing() {
    let info = AuthInfo {
        version: 5,
        modulus: String::new(),
        server_ephemeral: String::new(),
        salt: String::new(),
        srp_session: String::new(),
    };
    let error = srp_client_proof("alice", "pw", &info).unwrap_err();
    assert_eq!(error, LoginError::UnsupportedVersion);
    assert_eq!(error.message(), "Unsupported Proton SRP version");
}

#[test]
fn malformed_srp_parameters_are_refused() {
    let info = AuthInfo {
        version: 4,
        modulus: "not a signed modulus".into(),
        server_ephemeral: "AAAA".into(),
        salt: "AAAA".into(),
        srp_session: "session".into(),
    };
    let error = srp_client_proof("alice", "pw", &info).unwrap_err();
    assert_eq!(error, LoginError::SrpSetup);
    assert_eq!(error.message(), "Failed to initialize Proton SRP");
}

#[test]
fn the_server_proof_must_match() {
    let proof = SrpProof {
        client_ephemeral: "ce".into(),
        client_proof: "cp".into(),
        expected_server_proof: "c2VydmVy".into(),
    };
    let accepted = check_server_proof(&proof, response("c2VydmVy")).unwrap();
    assert_eq!(accepted.uid, "uid");
    assert_eq!(accepted.password_mode, 1);
    let error = check_server_proof(&proof, response("c2VydmVx")).unwrap_err();
    assert_eq!(error, LoginError::ServerProofMismatch);
    assert_eq!(error.message(), "Proton SRP server proof verification failed");
    assert!(check_server_proof(&proof, response("c2VydmVyAA==")).is_err());
}
