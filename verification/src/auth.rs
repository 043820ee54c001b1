//! The Proton password login: the SRP proof sent to the server, the check of
//! the server's own proof, and what a login answers.
use proton_srp::{SRPAuth, SRPError, SRPProof, SRPProofB64, SrpHashVersion};
use vstd::prelude::*;

verus! {

/// The answer to a password login.
#[derive(Debug, Clone)]
pub struct LoginResponse {
    pub uid: String,
    pub access_token: String,
    pub refresh_token: String,
    pub server_proof: String,
    /// 1 when one password unlocks everything, 2 when a separate mailbox
    /// password unlocks the keys.
    pub password_mode: u8,
    pub two_factor: TwoFactor,
}

/// The second factors enabled on the account: bit 1 is TOTP, bit 2 is FIDO2.
#[derive(Debug, Clone, Copy, PartialEq, Eq, Structural)]
pub struct TwoFactor {
    pub enabled: u32,
}

/// The password mode assumed when the login answer does not say.
pub fn default_password_mode() -> (r: u8)
    ensures
        r == 1,
{
    1
}

impl TwoFactor {
    /// No second factor.
    pub fn none() -> (r: TwoFactor)
        ensures
            r.enabled == 0,
    {
        TwoFactor { enabled: 0 }
    }
}

/// The SRP parameters that `/core/v4/auth/info` hands out for an account.
#[derive(Debug, Clone)]
pub struct AuthInfo {
    pub version: u8,
    pub modulus: String,
    pub server_ephemeral: String,
    pub salt: String,
    pub srp_session: String,
}

/// The proofs of one SRP exchange, base64 encoded as the API takes them.
#[derive(Debug, Clone)]
pub struct SrpProof {
    pub client_ephemeral: String,
    pub client_proof: String,
    pub expected_server_proof: String,
}

/// Why a password login failed on the client's side.
#[derive(Debug, Clone, Copy, PartialEq, Eq, Structural)]
pub enum LoginError {
    /// The server asked for an SRP hash version that `proton-srp` lacks.
    UnsupportedVersion,
    /// The SRP parameters were refused (salt, modulus, ephemeral, password).
    SrpSetup,
    /// No client proof could be generated from them.
    ProofGeneration,
    /// The server's proof differs from the one the client expected.
    ServerProofMismatch,
}

/// The message a login failure is reported with.
pub open spec fn login_error_message(e: LoginError) -> Seq<char> {
    match e {
        LoginError::UnsupportedVersion => "Unsupported Proton SRP version"@,
        LoginError::SrpSetup => "Failed to initialize Proton SRP"@,
        LoginError::ProofGeneration => "Failed to generate Proton SRP proof"@,
        LoginError::ServerProofMismatch => "Proton SRP server proof verification failed"@,
    }
}

impl LoginError {
    /// The message shown for the error (see [`login_error_message`]).
    pub fn message(&self) -> (r: &'static str)
        ensures
            r@ == login_error_message(*self),
    {
        match self {
            LoginError::UnsupportedVersion => "Unsupported Proton SRP version",
            LoginError::SrpSetup => "Failed to initialize Proton SRP",
            LoginError::ProofGeneration => "Failed to generate Proton SRP proof",
            LoginError::ServerProofMismatch => "Proton SRP server proof verification failed",
        }
    }
}

#[verifier::external_type_specification]
#[verifier::external_body]
pub struct ExSrpHashVersion(SrpHashVersion);

#[verifier::external_type_specification]
#[verifier::external_body]
pub struct ExSrpAuth(SRPAuth);

#[verifier::external_type_specification]
#[verifier::external_body]
pub struct ExSrpError(SRPError);

#[verifier::external_type_specification]
#[verifier::external_body]
pub struct ExSrpProof(SRPProof);

/// The SRP hash versions that `proton-srp` implements: 0 to 4.
pub open spec fn srp_version_supported(version: u8) -> bool {
    version <= 4
}

/// `SrpHashVersion::try_from(version)`: the source matches 0 to 4 and
/// answers `SRPError::UnsupportedVersion` for any other number.
#[verifier::external_body]
fn srp_hash_version(version: u8) -> (r: Result<SrpHashVersion, SRPError>)
    ensures
        r is Ok <==> srp_version_supported(version),
{
    SrpHashVersion::try_from(version)
}

/// Whether `SRPAuth::with_pgp` accepts these parameters: the signed modulus
/// verifies against the crate's own key and the password hashes with the salt
/// under this hash version. It reads nothing but its arguments (no clock, no
/// randomness).
pub uninterp spec fn srp_setup_accepted(
    username: Seq<char>,
    password: Seq<char>,
    version: u8,
    salt: Seq<char>,
    modulus: Seq<char>,
    server_ephemeral: Seq<char>,
) -> bool;

/// `SRPAuth::with_pgp`, with the hash version converted by
/// `SrpHashVersion::try_from`: checks the signed modulus with the crate's own
/// PGP verifier and hashes the password. Whether it accepts the parameters is
/// named by [`srp_setup_accepted`].
#[verifier::external_body]
fn srp_auth_with_pgp(
    username: &str,
    password: &str,
    version: u8,
    salt: &str,
    modulus: &str,
    server_ephemeral: &str,
) -> (r: Result<SRPAuth, SRPError>)
    requires
        srp_version_supported(version),
    ensures
        r is Ok <==> srp_setup_accepted(
            username@,
            password@,
            version,
            salt@,
            modulus@,
            server_ephemeral@,
        ),
{
    match SrpHashVersion::try_from(version) {
        Ok(version) => SRPAuth::with_pgp(
            Some(username),
            password,
            version,
            salt,
            modulus,
            server_ephemeral,
        ),
        Err(e) => Err(e),
    }
}

/// `SRPAuth::generate_proofs`. The proofs rest on a fresh random client
/// secret, so nothing is stated of them.
#[verifier::external_body]
fn srp_generate_proofs(auth: &SRPAuth) -> (r: Result<SRPProof, SRPError>) {
    auth.generate_proofs()
}

/// `SRPProofB64::from`: the three proofs in standard base64, as the API takes
/// them; nothing is stated of the text.
#[verifier::external_body]
fn srp_proof_base64(proof: SRPProof) -> (r: SrpProof) {
    let proof = SRPProofB64::from(proof);
    SrpProof {
        client_ephemeral: proof.client_ephemeral,
        client_proof: proof.client_proof,
        expected_server_proof: proof.expected_server_proof,
    }
}

/// `SRPProofB64::compare_server_proof`: a constant-time comparison of the
/// bytes of the expected proof with those of the server's, which is `false`
/// when the lengths differ; so it holds exactly when the texts are equal.
#[verifier::external_body]
fn srp_server_proof_matches(proof: &SrpProof, server_proof: &str) -> (r: bool)
    ensures
        r == (proof.expected_server_proof@ == server_proof@),
{
    let proof = SRPProofB64 {
        client_ephemeral: proof.client_ephemeral.clone(),
        client_proof: proof.client_proof.clone(),
        expected_server_proof: proof.expected_server_proof.clone(),
    };
    proof.compare_server_proof(server_proof)
}

/// The client's half of an SRP login: the proof to send for `username` and
/// `password` against the parameters of `info`. An unsupported hash version is
/// refused before `proton-srp` is asked anything; parameters that `proton-srp`
/// does not accept (see [`srp_setup_accepted`]) give `SrpSetup`; the proof
/// itself rests on a fresh random secret.
pub fn srp_client_proof(username: &str, password: &str, info: &AuthInfo) -> (r: Result<
    SrpProof,
    LoginError,
>)
    ensures
        !srp_version_supported(info.version) ==> r == Err::<SrpProof, LoginError>(
            LoginError::UnsupportedVersion,
        ),
        r matches Err(e) ==> (e == LoginError::UnsupportedVersion <==> !srp_version_supported(
            info.version,
        )),
        r matches Err(e) ==> e != LoginError::ServerProofMismatch,
        srp_version_supported(info.version) ==> (r == Err::<SrpProof, LoginError>(
            LoginError::SrpSetup,
        ) <==> !srp_setup_accepted(
            username@,
            password@,
            info.version,
            info.salt@,
            info.modulus@,
            info.server_ephemeral@,
        )),
{
    if srp_hash_version(info.version).is_err() {
        return Err(LoginError::UnsupportedVersion);
    }
    let auth = match srp_auth_with_pgp(
        username,
        password,
        info.version,
        info.salt.as_str(),
        info.modulus.as_str(),
        info.server_ephemeral.as_str(),
    ) {
        Ok(a) => a,
        Err(_) => {
            return Err(LoginError::SrpSetup);
        },
    };
    match srp_generate_proofs(&auth) {
        Ok(p) => Ok(srp_proof_base64(p)),
        Err(_) => Err(LoginError::ProofGeneration),
    }
}

/// The client's check of a login answer: the answer is accepted exactly when
/// the server's proof is the one the client expected.
pub fn check_server_proof(proof: &SrpProof, response: LoginResponse) -> (r: Result<
    LoginResponse,
    LoginError,
>)
    ensures
        r is Ok <==> proof.expected_server_proof@ == response.server_proof@,
        r matches Ok(answer) ==> answer == response,
        r matches Err(e) ==> e == LoginError::ServerProofMismatch,
{
    if srp_server_proof_matches(proof, response.server_proof.as_str()) {
        Ok(response)
    } else {
        Err(LoginError::ServerProofMismatch)
    }
}

} // verus!
