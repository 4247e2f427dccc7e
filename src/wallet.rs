use vstd::prelude::*;

verus! {

/// Role of the wallet whose key signs a deployment script.
#[derive(Clone, Copy, Debug, PartialEq, Eq, Structural)]
pub enum WalletType {
    Governor,
    Deployer,
}

} // verus!
